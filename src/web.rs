//! What the HTTP endpoints decide: the route table, form parameters, the
//! replies of the feed-adding and login endpoints, and the lookups behind the
//! read endpoints. Serving bytes over a socket is left to the caller.
use crate::auth::{generate_jwt, hs256_token_of, password_matches};
use crate::models::{CompositeFeedItem, FeedChannel, FeedItem, ParsedFeed, User};
use crate::router::{is_digit, lit, Handler, Method, Part, PartView, RouteView, Router};
use crate::store::{
    channel_exists, ingest_channel_id, ingest_model, item_exists, items_in, list_model, subscribed,
    user_exists, wf, Store,
};
use vstd::prelude::*;
use vstd::string::StringSliceAdditionalSpecFns;

verus! {

/// The (name, value) pairs of an `application/x-www-form-urlencoded` body, decoded, in order.
pub uninterp spec fn form_of(body: Seq<u8>) -> Seq<(Seq<char>, Seq<char>)>;

/// Whether the text parses as an absolute URL.
pub uninterp spec fn is_valid_url(s: Seq<char>) -> bool;

/// Relies on url::form_urlencoded::parse: the decoded pairs of the body, in order.
#[verifier::external_body]
fn form_pairs(body: &[u8]) -> (r: Vec<(String, String)>)
    ensures
        r@.len() == form_of(body@).len(),
        forall|i: int|
            0 <= i < r@.len() ==> (#[trigger] r@[i]).0@ == form_of(body@)[i].0 && r@[i].1@ == form_of(
                body@,
            )[i].1,
{
    url::form_urlencoded::parse(body).into_owned().collect()
}

/// Relies on url::Url::parse: whether the text is a well-formed absolute URL.
#[verifier::external_body]
fn url_parses(s: &str) -> (r: bool)
    ensures
        r == is_valid_url(s@),
{
    url::Url::parse(s).is_ok()
}

/// A reply to send: status code, body text, and whether the permissive
/// cross-origin header goes with it.
#[derive(Debug)]
pub struct Reply {
    pub status: u16,
    pub body: String,
    pub cors: bool,
}

pub struct ReplyView {
    pub status: u16,
    pub body: Seq<char>,
    pub cors: bool,
}

impl View for Reply {
    type V = ReplyView;

    open spec fn view(&self) -> ReplyView {
        ReplyView { status: self.status, body: self.body@, cors: self.cors }
    }
}

/// The value of the last pair named `key`: later pairs override earlier ones.
pub open spec fn lookup(pairs: Seq<(Seq<char>, Seq<char>)>, key: Seq<char>) -> Option<Seq<char>>
    decreases pairs.len(),
{
    if pairs.len() == 0 {
        None
    } else if pairs.last().0 == key {
        Some(pairs.last().1)
    } else {
        lookup(pairs.drop_last(), key)
    }
}

pub open spec fn pairs_view(p: Seq<(String, String)>) -> Seq<(Seq<char>, Seq<char>)> {
    p.map_values(|e: (String, String)| (e.0@, e.1@))
}

/// The value of form parameter `key`, the last one where it is given twice.
pub fn param(pairs: &Vec<(String, String)>, key: &str) -> (r: Option<String>)
    ensures
        match r {
            Some(v) => lookup(pairs_view(pairs@), key@) == Some(v@),
            None => lookup(pairs_view(pairs@), key@) is None,
        },
{
    let k = key.to_owned();
    let mut i: usize = pairs.len();
    assert(pairs@.subrange(0, i as int) =~= pairs@);
    while i > 0
        invariant
            i <= pairs@.len(),
            k@ == key@,
            lookup(pairs_view(pairs@), key@) == lookup(pairs_view(pairs@.subrange(0, i as int)), key@),
        decreases i,
    {
        let ghost pre = pairs_view(pairs@.subrange(0, i as int));
        assert(pairs_view(pairs@.subrange(0, i - 1)) =~= pre.drop_last());
        if pairs[i - 1].0 == k {
            return Some(pairs[i - 1].1.clone());
        }
        i -= 1;
    }
    assert(pairs_view(pairs@.subrange(0, 0)) =~= Seq::<(Seq<char>, Seq<char>)>::empty());
    None
}

/// Body of the reply to a feed-adding request without a `feed_url` parameter.
pub open spec fn missing_feed_url() -> Seq<char> {
    "parameter 'feed_url' missing"@
}

/// Body of the reply to a feed-adding request whose `feed_url` is no URL.
pub open spec fn invalid_feed_url() -> Seq<char> {
    "parameter 'feed_url' invalid"@
}

/// The feed URL that a feed-adding request names, or its 400 reply.
pub open spec fn add_feed_model(pairs: Seq<(Seq<char>, Seq<char>)>) -> Result<Seq<char>, ReplyView> {
    match lookup(pairs, "feed_url"@) {
        None => Err(ReplyView { status: 400, body: missing_feed_url(), cors: false }),
        Some(u) => if is_valid_url(u) {
            Ok(u)
        } else {
            Err(ReplyView { status: 400, body: invalid_feed_url(), cors: false })
        },
    }
}

/// Decides a feed-adding request from its decoded form pairs: the URL to
/// fetch and reconcile, or a 400 reply where it is missing or malformed.
pub fn feed_url_from(pairs: &Vec<(String, String)>) -> (r: Result<String, Reply>)
    ensures
        match (r, add_feed_model(pairs_view(pairs@))) {
            (Ok(u), Ok(m)) => u@ == m,
            (Err(e), Err(m)) => e@ == m,
            _ => false,
        },
{
    match param(pairs, "feed_url") {
        None => Err(Reply { status: 400, body: "parameter 'feed_url' missing".to_owned(), cors: false }),
        Some(u) => {
            if url_parses(u.as_str()) {
                Ok(u)
            } else {
                Err(Reply { status: 400, body: "parameter 'feed_url' invalid".to_owned(), cors: false })
            }
        },
    }
}

/// Decides a feed-adding request from its raw form body.
pub fn add_feed(body: &[u8]) -> (r: Result<String, Reply>)
    ensures
        match (r, add_feed_model(form_of(body@))) {
            (Ok(u), Ok(m)) => u@ == m,
            (Err(e), Err(m)) => e@ == m,
            _ => false,
        },
{
    let pairs = form_pairs(body);
    assert(pairs_view(pairs@) =~= form_of(body@));
    feed_url_from(&pairs)
}

/// Why a feed document could not be had.
#[derive(Clone, Copy, Debug, PartialEq, Eq, Structural)]
pub enum FeedError {
    /// No response came: the host was unreachable or the request timed out.
    Unreachable,
    /// The response's status was not 2xx.
    Status(u16),
    /// The body is not a feed document.
    NotAFeed,
}

/// Classifies a fetch: the response status, if a response came, and the
/// parsed document, if the body parsed as a feed.
pub fn fetched_feed(status: Option<u16>, parsed: Option<ParsedFeed>) -> (r: Result<ParsedFeed, FeedError>)
    ensures
        match status {
            None => r == Err::<ParsedFeed, FeedError>(FeedError::Unreachable),
            Some(code) => if !(200 <= code < 300) {
                r == Err::<ParsedFeed, FeedError>(FeedError::Status(code))
            } else {
                match parsed {
                    None => r == Err::<ParsedFeed, FeedError>(FeedError::NotAFeed),
                    Some(f) => r == Ok::<ParsedFeed, FeedError>(f),
                }
            },
        },
{
    match status {
        None => Err(FeedError::Unreachable),
        Some(code) => {
            if !(200 <= code && code < 300) {
                Err(FeedError::Status(code))
            } else {
                match parsed {
                    None => Err(FeedError::NotAFeed),
                    Some(f) => Ok(f),
                }
            }
        },
    }
}

/// Completes a feed-adding request for user `u` with what the fetch gave, at
/// time `now`: 502 where no feed could be had and 500 where the store is full,
/// both changing nothing; otherwise the feed is reconciled, `u` (where it is
/// a user) is subscribed to its channel, and the reply is 200 with no body.
pub fn add_feed_reply(store: &mut Store, fetched: Result<ParsedFeed, FeedError>, now: i64, u: i32) -> (r: Reply)
    requires
        wf(old(store)@),
    ensures
        wf(final(store)@),
        r.body@.len() == 0,
        !r.cors,
        match fetched {
            Err(_) => r.status == 502 && final(store)@ == old(store)@,
            Ok(f) => {
                let fits = old(store)@.channels.len() + 1 < i32::MAX && old(store)@.items.len()
                    + f@.items.len() + 1 < i32::MAX;
                let m = ingest_model(old(store)@, f@, now);
                let ch = ingest_channel_id(old(store)@.channels, f@);
                if fits {
                    &&& r.status == 200
                    &&& final(store)@.channels == m.channels
                    &&& final(store)@.items == m.items
                    &&& final(store)@.seen == m.seen
                    &&& final(store)@.users == m.users
                    &&& (user_exists(m, u) && m.subscriptions.len() + 1 < i32::MAX) ==> subscribed(
                        final(store)@,
                        u,
                        ch,
                    )
                    &&& !(user_exists(m, u) && m.subscriptions.len() + 1 < i32::MAX) ==> final(store)@.subscriptions == m.subscriptions
                } else {
                    r.status == 500 && final(store)@ == old(store)@
                }
            },
        },
{
    match &fetched {
        Err(_) => Reply { status: 502, body: String::new(), cors: false },
        Ok(f) => match store.try_ingest(f, now) {
            Ok((ch, _)) => {
                if store.subscription_count() < 2147483646 {
                    let _ = store.ensure_subscription(u, ch);
                }
                Reply { status: 200, body: String::new(), cors: false }
            },
            Err(_) => Reply { status: 500, body: String::new(), cors: false },
        },
    }
}

/// Whether some user of the store has this username and password.
pub open spec fn credentials_ok(store: crate::store::StoreView, name: Seq<char>, pass: Seq<char>) -> bool {
    exists|k: int|
        0 <= k < store.users.len() && #[trigger] store.users[k].username == name && password_matches(
            store.users[k].password_hash,
            pass,
        )
}

/// Decides a login request from its decoded form pairs, at time `iat`, with
/// the signing secret if one is configured: 400 without both fields, 401 for
/// wrong credentials, 500 where no token can be signed, else 200 with the token.
pub fn login_reply(store: &Store, pairs: &Vec<(String, String)>, iat: u64, secret: Option<&str>) -> (r:
    Reply)
    requires
        wf(store@),
    ensures
        r.cors,
        ({
            let u = lookup(pairs_view(pairs@), "username"@);
            let p = lookup(pairs_view(pairs@), "password"@);
            if u is None || p is None {
                r.status == 400 && r.body@.len() == 0
            } else if !credentials_ok(store@, u->0, p->0) {
                r.status == 401 && r.body@.len() == 0
            } else {
                match secret {
                    Some(k) => match hs256_token_of(u->0, iat, k@) {
                        Some(t) => r.status == 200 && r.body@ == t,
                        None => r.status == 500 && r.body@.len() == 0,
                    },
                    None => r.status == 500 && r.body@.len() == 0,
                }
            }
        }),
{
    let u = param(pairs, "username");
    let p = param(pairs, "password");
    match (u, p) {
        (Some(u), Some(p)) => {
            match User::check_user(store, u.as_str(), p.as_str()) {
                Some(_) => match generate_jwt(u.as_str(), iat, secret) {
                    Some(t) => Reply { status: 200, body: t, cors: true },
                    None => Reply { status: 500, body: String::new(), cors: true },
                },
                None => Reply { status: 401, body: String::new(), cors: true },
            }
        },
        _ => Reply { status: 400, body: String::new(), cors: true },
    }
}

/// Decides a login request from its raw form body (see `login_reply`).
pub fn authenticate(store: &Store, body: &[u8], iat: u64, secret: Option<&str>) -> (r: Reply)
    requires
        wf(store@),
    ensures
        r.cors,
        ({
            let u = lookup(form_of(body@), "username"@);
            let p = lookup(form_of(body@), "password"@);
            if u is None || p is None {
                r.status == 400 && r.body@.len() == 0
            } else if !credentials_ok(store@, u->0, p->0) {
                r.status == 401 && r.body@.len() == 0
            } else {
                match secret {
                    Some(k) => match hs256_token_of(u->0, iat, k@) {
                        Some(t) => r.status == 200 && r.body@ == t,
                        None => r.status == 500 && r.body@.len() == 0,
                    },
                    None => r.status == 500 && r.body@.len() == 0,
                }
            }
        }),
{
    let pairs = form_pairs(body);
    assert(pairs_view(pairs@) =~= form_of(body@));
    login_reply(store, &pairs, iat, secret)
}

/// The routes the reader serves, in the order they are tried.
pub open spec fn routes_model() -> Seq<RouteView> {
    seq![
        RouteView { method: Method::Get, pattern: seq![PartView::Lit("/".spec_bytes())], handler: Handler::Home },
        RouteView { method: Method::Get, pattern: seq![PartView::Lit("/feeds".spec_bytes())], handler: Handler::Index },
        RouteView { method: Method::Get, pattern: seq![PartView::Lit("/static/".spec_bytes()), PartView::Rest], handler: Handler::ShowAsset },
        RouteView { method: Method::Get, pattern: seq![PartView::Lit("/feed/".spec_bytes()), PartView::Digits], handler: Handler::ShowChannel },
        RouteView { method: Method::Get, pattern: seq![PartView::Lit("/item/".spec_bytes()), PartView::Digits], handler: Handler::ShowItem },
        RouteView { method: Method::Get, pattern: seq![PartView::Lit("/items/".spec_bytes()), PartView::Digits], handler: Handler::ShowItems },
        RouteView { method: Method::Post, pattern: seq![PartView::Lit("/add_feed".spec_bytes())], handler: Handler::AddFeed },
        RouteView { method: Method::Post, pattern: seq![PartView::Lit("/login".spec_bytes())], handler: Handler::Login },
    ]
}

/// The reader's routing table.
pub fn router() -> (r: Router)
    ensures
        r@ == routes_model(),
{
    let pat_home = vec![lit("/")];
    let pat_index = vec![lit("/feeds")];
    let pat_asset = vec![lit("/static/"), Part::Rest];
    let pat_channel = vec![lit("/feed/"), Part::Digits];
    let pat_item = vec![lit("/item/"), Part::Digits];
    let pat_items = vec![lit("/items/"), Part::Digits];
    let pat_add = vec![lit("/add_feed")];
    let pat_login = vec![lit("/login")];
    let ghost m = routes_model();
    assert(pat_home@.map_values(|p: Part| p@) =~= m[0].pattern);
    assert(pat_index@.map_values(|p: Part| p@) =~= m[1].pattern);
    assert(pat_asset@.map_values(|p: Part| p@) =~= m[2].pattern);
    assert(pat_channel@.map_values(|p: Part| p@) =~= m[3].pattern);
    assert(pat_item@.map_values(|p: Part| p@) =~= m[4].pattern);
    assert(pat_items@.map_values(|p: Part| p@) =~= m[5].pattern);
    assert(pat_add@.map_values(|p: Part| p@) =~= m[6].pattern);
    assert(pat_login@.map_values(|p: Part| p@) =~= m[7].pattern);
    let r = Router::build()
        .route(Method::Get, pat_home, Handler::Home)
        .route(Method::Get, pat_index, Handler::Index)
        .route(Method::Get, pat_asset, Handler::ShowAsset)
        .route(Method::Get, pat_channel, Handler::ShowChannel)
        .route(Method::Get, pat_item, Handler::ShowItem)
        .route(Method::Get, pat_items, Handler::ShowItems)
        .route(Method::Post, pat_add, Handler::AddFeed)
        .route(Method::Post, pat_login, Handler::Login);
    assert(r@ =~= routes_model());
    r
}

/// The value of a string of decimal digits.
pub open spec fn digits_value(d: Seq<u8>) -> int
    decreases d.len(),
{
    if d.len() == 0 {
        0
    } else {
        digits_value(d.drop_last()) * 10 + (d.last() - 48)
    }
}

pub open spec fn all_digits(d: Seq<u8>) -> bool {
    forall|k: int| 0 <= k < d.len() ==> is_digit(#[trigger] d[k])
}

/// The identity that a captured path piece names: a non-empty string of
/// digits whose value fits in an `i32`.
pub open spec fn id_of(d: Seq<u8>) -> Option<i32> {
    if d.len() > 0 && all_digits(d) && digits_value(d) <= i32::MAX {
        Some(digits_value(d) as i32)
    } else {
        None
    }
}

proof fn lemma_digits_nonneg(d: Seq<u8>)
    requires
        all_digits(d),
    ensures
        digits_value(d) >= 0,
    decreases d.len(),
{
    if d.len() > 0 {
        lemma_digits_nonneg(d.drop_last());
    }
}

/// Reads an identity from a captured path piece.
pub fn parse_id(d: &[u8]) -> (r: Option<i32>)
    ensures
        r == id_of(d@),
{
    let cap: u64 = 2147483648;
    let mut acc: u64 = 0;
    let mut i: usize = 0;
    while i < d.len()
        invariant
            i <= d@.len(),
            cap == i32::MAX + 1,
            all_digits(d@.subrange(0, i as int)),
            acc == if digits_value(d@.subrange(0, i as int)) < cap { digits_value(d@.subrange(0, i as int)) } else { cap as int },
        decreases d.len() - i,
    {
        let b = d[i];
        if !(48 <= b && b <= 57) {
            assert(!all_digits(d@)) by {
                assert(!is_digit(d@[i as int]));
            }
            return None;
        }
        let ghost pre = d@.subrange(0, i as int);
        let ghost next = d@.subrange(0, i + 1);
        assert(next.drop_last() =~= pre);
        proof {
            lemma_digits_nonneg(pre);
        }
        let v = acc * 10 + (b - 48) as u64;
        acc = if v < cap { v } else { cap };
        i += 1;
        proof {
            assert(all_digits(next)) by {
                assert forall|k: int| 0 <= k < next.len() implies is_digit(#[trigger] next[k]) by {
                    if k < pre.len() {
                        assert(next[k] == pre[k]);
                    }
                }
            }
            let dv = digits_value(pre);
            assert(digits_value(next) == dv * 10 + (b - 48));
            if dv >= cap {
                assert(dv * 10 + (b - 48) >= cap) by (nonlinear_arith)
                    requires
                        dv >= cap,
                        cap > 0,
                        0 <= b - 48,
                ;
            }
        }
    }
    assert(d@.subrange(0, i as int) =~= d@);
    if i == 0 || acc >= cap {
        None
    } else {
        Some(acc as i32)
    }
}

/// The channel and its items that `GET /feed/{id}` shows, if the identity names one.
pub fn show_channel(store: &Store, id_text: &[u8]) -> (r: Option<(FeedChannel, Vec<FeedItem>)>)
    requires
        wf(store@),
    ensures
        r is Some <==> (id_of(id_text@) is Some && channel_exists(store@, id_of(id_text@)->0)),
        match r {
            Some(found) => found.0@ == store@.channels[id_of(id_text@)->0 - 1]
                && found.1@.map_values(|i: FeedItem| i@) == items_in(store@.items, id_of(id_text@)->0, store@.items.len()),
            None => true,
        },
{
    match parse_id(id_text) {
        Some(id) => store.get_channel_with_items(id),
        None => None,
    }
}

/// The item that `GET /item/{id}` shows, if the identity names one.
pub fn show_item(store: &Store, id_text: &[u8]) -> (r: Option<FeedItem>)
    requires
        wf(store@),
    ensures
        r is Some <==> (id_of(id_text@) is Some && item_exists(store@, id_of(id_text@)->0)),
        match r {
            Some(it) => it@ == store@.items[id_of(id_text@)->0 - 1],
            None => true,
        },
{
    match parse_id(id_text) {
        Some(id) => store.get_item(id),
        None => None,
    }
}

/// The composite items that `GET /items/{id}` shows to user `u`, newest
/// first; none where the identity is not a number.
pub fn show_items(store: &Store, id_text: &[u8], u: i32) -> (r: Vec<CompositeFeedItem>)
    requires
        wf(store@),
    ensures
        match id_of(id_text@) {
            Some(id) => r@.map_values(|c: CompositeFeedItem| c@) == list_model(store@, id, u),
            None => r@.len() == 0,
        },
{
    match parse_id(id_text) {
        Some(id) => store.list_composite(id, u),
        None => Vec::new(),
    }
}

/// The headers of a reply to a cross-origin preflight request, as (name, value) pairs.
pub open spec fn cors_model() -> Seq<(Seq<char>, Seq<char>)> {
    seq![
        ("Access-Control-Allow-Origin"@, "*"@),
        ("Access-Control-Allow-Credentials"@, "true"@),
        ("Access-Control-Expose-Headers"@, "Access-Control-*"@),
        ("Access-Control-Allow-Headers"@, "Access-Control-*, Origin, X-Requested-With, Content-Type, Accept, Authorization"@),
        ("Access-Control-Allow-Methods"@, "GET, POST, PUT, DELETE, OPTIONS, HEAD"@),
        ("Allow"@, "GET, POST, PUT, DELETE, OPTIONS, HEAD"@),
    ]
}

fn header(name: &str, value: &str) -> (r: (String, String))
    ensures
        r.0@ == name@,
        r.1@ == value@,
{
    (name.to_owned(), value.to_owned())
}

/// The headers of a reply to a cross-origin preflight request.
pub fn cors_headers() -> (r: Vec<(String, String)>)
    ensures
        pairs_view(r@) == cors_model(),
{
    let r = vec![
        header("Access-Control-Allow-Origin", "*"),
        header("Access-Control-Allow-Credentials", "true"),
        header("Access-Control-Expose-Headers", "Access-Control-*"),
        header(
            "Access-Control-Allow-Headers",
            "Access-Control-*, Origin, X-Requested-With, Content-Type, Accept, Authorization",
        ),
        header("Access-Control-Allow-Methods", "GET, POST, PUT, DELETE, OPTIONS, HEAD"),
        header("Allow", "GET, POST, PUT, DELETE, OPTIONS, HEAD"),
    ];
    assert(pairs_view(r@) =~= cors_model());
    r
}

} // verus!
