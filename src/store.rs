//! The reader's stored state and the operations on it: ingestion of a parsed
//! feed with per-channel deduplication, subscriptions, per-user seen flags and
//! the composite listing of a channel.
use crate::models::{
    clone_opt, opt_view, ChannelView, CompositeFeedItem, CompositeView, FeedChannel, FeedItem, ItemView,
    ParsedFeed, ParsedFeedView, ParsedItemView, SubscribedFeedItem, Subscription, User, UserView,
};
use vstd::prelude::*;

verus! {

/// What the store holds, as values.
pub struct StoreView {
    pub channels: Seq<ChannelView>,
    pub items: Seq<ItemView>,
    pub subscriptions: Seq<Subscription>,
    pub seen: Seq<SubscribedFeedItem>,
    pub users: Seq<UserView>,
}

/// Why a store operation was refused.
#[derive(Clone, Copy, Debug, PartialEq, Eq, Structural)]
pub enum StoreError {
    /// A referenced user, channel or item does not exist.
    NotFound,
    /// The username is already taken.
    Duplicate,
    /// No identity is left for a new row.
    Full,
}

/// Rows are numbered from one in insertion order; a row's identity is its position plus one.
pub open spec fn ids_ok(ids: Seq<i32>) -> bool {
    &&& ids.len() < i32::MAX
    &&& forall|i: int| 0 <= i < ids.len() ==> #[trigger] ids[i] == i + 1
}

pub open spec fn user_exists(s: StoreView, u: i32) -> bool {
    1 <= u <= s.users.len()
}

pub open spec fn channel_exists(s: StoreView, c: i32) -> bool {
    1 <= c <= s.channels.len()
}

pub open spec fn item_exists(s: StoreView, it: i32) -> bool {
    1 <= it <= s.items.len()
}

/// The store's invariant: identities by position, one channel per feed link,
/// one item per (channel, GUID), one subscription per (user, channel), one seen
/// row per (user, item), unique usernames, and no reference to a missing row.
pub open spec fn wf(s: StoreView) -> bool {
    &&& wf_ids(s)
    &&& wf_channels(s)
    &&& wf_items(s)
    &&& wf_subscriptions(s)
    &&& wf_seen(s)
    &&& wf_users(s)
}

pub open spec fn wf_ids(s: StoreView) -> bool {
    &&& ids_ok(s.channels.map_values(|c: ChannelView| c.id))
    &&& ids_ok(s.items.map_values(|i: ItemView| i.id))
    &&& ids_ok(s.subscriptions.map_values(|b: Subscription| b.id))
    &&& ids_ok(s.seen.map_values(|r: SubscribedFeedItem| r.id))
    &&& ids_ok(s.users.map_values(|u: UserView| u.id))
}

pub open spec fn wf_channels(s: StoreView) -> bool {
    forall|i: int, j: int|
        0 <= i < j < s.channels.len() ==> #[trigger] s.channels[i].feed_link
            != #[trigger] s.channels[j].feed_link
}

pub open spec fn wf_items(s: StoreView) -> bool {
    &&& forall|i: int| 0 <= i < s.items.len() ==> channel_exists(s, #[trigger] s.items[i].feed_channel_id)
    &&& forall|i: int, j: int|
        0 <= i < j < s.items.len() ==> !(#[trigger] s.items[i].feed_channel_id
            == #[trigger] s.items[j].feed_channel_id && s.items[i].guid == s.items[j].guid)
}

pub open spec fn wf_subscriptions(s: StoreView) -> bool {
    &&& forall|i: int|
        0 <= i < s.subscriptions.len() ==> user_exists(s, #[trigger] s.subscriptions[i].user_id)
            && channel_exists(s, s.subscriptions[i].feed_channel_id)
    &&& forall|i: int, j: int|
        0 <= i < j < s.subscriptions.len() ==> !(#[trigger] s.subscriptions[i].user_id
            == #[trigger] s.subscriptions[j].user_id && s.subscriptions[i].feed_channel_id
            == s.subscriptions[j].feed_channel_id)
}

pub open spec fn wf_seen(s: StoreView) -> bool {
    &&& forall|i: int|
        0 <= i < s.seen.len() ==> user_exists(s, #[trigger] s.seen[i].user_id) && item_exists(
            s,
            s.seen[i].feed_item_id,
        )
    &&& forall|i: int, j: int|
        0 <= i < j < s.seen.len() ==> !(#[trigger] s.seen[i].user_id == #[trigger] s.seen[j].user_id
            && s.seen[i].feed_item_id == s.seen[j].feed_item_id)
}

pub open spec fn wf_users(s: StoreView) -> bool {
    forall|i: int, j: int|
        0 <= i < j < s.users.len() ==> #[trigger] s.users[i].username
            != #[trigger] s.users[j].username
}

pub open spec fn has_channel(chs: Seq<ChannelView>, link: Seq<char>) -> bool {
    exists|i: int| 0 <= i < chs.len() && #[trigger] chs[i].feed_link == link
}

/// The position of the channel with the given feed link (meaningful when there is one).
pub open spec fn channel_at(chs: Seq<ChannelView>, link: Seq<char>) -> int {
    choose|i: int| 0 <= i < chs.len() && #[trigger] chs[i].feed_link == link
}

/// The identity of the channel that a feed is reconciled into.
pub open spec fn ingest_channel_id(chs: Seq<ChannelView>, f: ParsedFeedView) -> i32 {
    if has_channel(chs, f.feed_link) {
        chs[channel_at(chs, f.feed_link)].id
    } else {
        (chs.len() + 1) as i32
    }
}

/// The channels after a feed is reconciled: the matching channel gets the
/// feed's metadata and the time, keeping its identity and link; otherwise a new
/// channel is appended.
pub open spec fn ingest_channels(chs: Seq<ChannelView>, f: ParsedFeedView, now: i64) -> Seq<
    ChannelView,
> {
    if has_channel(chs, f.feed_link) {
        let i = channel_at(chs, f.feed_link);
        chs.update(
            i,
            ChannelView {
                id: chs[i].id,
                title: f.title,
                site_link: f.site_link,
                feed_link: chs[i].feed_link,
                description: f.description,
                updated_at: now,
            },
        )
    } else {
        chs.push(
            ChannelView {
                id: (chs.len() + 1) as i32,
                title: f.title,
                site_link: f.site_link,
                feed_link: f.feed_link,
                description: f.description,
                updated_at: now,
            },
        )
    }
}

pub open spec fn has_guid(items: Seq<ItemView>, ch: i32, guid: Seq<char>) -> bool {
    exists|k: int|
        0 <= k < items.len() && #[trigger] items[k].feed_channel_id == ch && items[k].guid == guid
}

pub open spec fn new_item(id: int, ch: i32, p: ParsedItemView) -> ItemView {
    ItemView {
        id: id as i32,
        guid: p.guid,
        title: p.title,
        link: p.link,
        description: p.description,
        published_at: p.published_at,
        feed_channel_id: ch,
        content: p.content,
    }
}

/// First write wins: an entry whose GUID the channel already holds is skipped.
pub open spec fn merge_step(items: Seq<ItemView>, ch: i32, p: ParsedItemView) -> Seq<ItemView> {
    if has_guid(items, ch, p.guid) {
        items
    } else {
        items.push(new_item(items.len() as int + 1, ch, p))
    }
}

/// The items after the first `n` entries of `ps` are reconciled into channel `ch`.
pub open spec fn merged(items: Seq<ItemView>, ch: i32, ps: Seq<ParsedItemView>, n: nat) -> Seq<
    ItemView,
>
    decreases n,
{
    if n == 0 || n > ps.len() {
        items
    } else {
        merge_step(merged(items, ch, ps, (n - 1) as nat), ch, ps[n - 1])
    }
}

/// The store after one feed document is reconciled into it at time `now`.
pub open spec fn ingest_model(s: StoreView, f: ParsedFeedView, now: i64) -> StoreView {
    StoreView {
        channels: ingest_channels(s.channels, f, now),
        items: merged(s.items, ingest_channel_id(s.channels, f), f.items, f.items.len()),
        subscriptions: s.subscriptions,
        seen: s.seen,
        users: s.users,
    }
}

pub open spec fn subscribed(s: StoreView, u: i32, c: i32) -> bool {
    exists|k: int|
        0 <= k < s.subscriptions.len() && #[trigger] s.subscriptions[k].user_id == u
            && s.subscriptions[k].feed_channel_id == c
}

/// The seen flag of user `u` on item `it`: the stored flag, or false where no row exists.
pub open spec fn seen_of(s: StoreView, u: i32, it: i32) -> bool {
    exists|k: int|
        0 <= k < s.seen.len() && #[trigger] s.seen[k].user_id == u && s.seen[k].feed_item_id == it
            && s.seen[k].seen
}

pub open spec fn has_seen_row(s: StoreView, u: i32, it: i32) -> bool {
    exists|k: int|
        0 <= k < s.seen.len() && #[trigger] s.seen[k].user_id == u && s.seen[k].feed_item_id == it
}

pub open spec fn has_user(s: StoreView, name: Seq<char>) -> bool {
    exists|k: int| 0 <= k < s.users.len() && #[trigger] s.users[k].username == name
}

/// An item joined with a seen flag.
pub open spec fn composite_of(it: ItemView, seen: bool) -> CompositeView {
    CompositeView {
        item_id: it.id,
        title: it.title,
        link: Some(it.link),
        description: it.description,
        published_at: it.published_at,
        content: it.content,
        seen,
    }
}

/// Where `t` goes in a list ordered newest first: after every entry at least as recent.
pub open spec fn insert_pos(s: Seq<CompositeView>, t: i64) -> nat
    decreases s.len(),
{
    if s.len() == 0 {
        0
    } else if s[0].published_at < t {
        0
    } else {
        1 + insert_pos(s.drop_first(), t)
    }
}

pub open spec fn insert_desc(s: Seq<CompositeView>, x: CompositeView) -> Seq<CompositeView> {
    s.insert(insert_pos(s, x.published_at) as int, x)
}

/// The composite items of channel `ch` for user `u` among the first `n` stored
/// items, newest first; items published at the same time keep their stored order.
pub open spec fn listing(s: StoreView, ch: i32, u: i32, n: nat) -> Seq<CompositeView>
    decreases n,
{
    if n == 0 || n > s.items.len() {
        Seq::empty()
    } else {
        let prev = listing(s, ch, u, (n - 1) as nat);
        let it = s.items[n - 1];
        if it.feed_channel_id == ch {
            insert_desc(prev, composite_of(it, seen_of(s, u, it.id)))
        } else {
            prev
        }
    }
}

/// The composite listing of channel `ch` for user `u`.
pub open spec fn list_model(s: StoreView, ch: i32, u: i32) -> Seq<CompositeView> {
    listing(s, ch, u, s.items.len())
}

/// The items of channel `ch` among the first `n` stored items, in stored order.
pub open spec fn items_in(items: Seq<ItemView>, ch: i32, n: nat) -> Seq<ItemView>
    decreases n,
{
    if n == 0 || n > items.len() {
        Seq::empty()
    } else if items[n - 1].feed_channel_id == ch {
        items_in(items, ch, (n - 1) as nat).push(items[n - 1])
    } else {
        items_in(items, ch, (n - 1) as nat)
    }
}

pub open spec fn sorted_desc(s: Seq<CompositeView>) -> bool {
    forall|i: int, j: int| 0 <= i < j < s.len() ==> #[trigger] s[i].published_at >= #[trigger] s[j].published_at
}

proof fn lemma_insert_pos(s: Seq<CompositeView>, t: i64, p: int)
    requires
        0 <= p <= s.len(),
        forall|k: int| 0 <= k < p ==> #[trigger] s[k].published_at >= t,
        p == s.len() || s[p].published_at < t,
    ensures
        insert_pos(s, t) == p,
    decreases p,
{
    if p > 0 {
        let d = s.drop_first();
        assert forall|k: int| 0 <= k < p - 1 implies #[trigger] d[k].published_at >= t by {
            assert(s[k + 1].published_at >= t);
        }
        lemma_insert_pos(d, t, p - 1);
    }
}

proof fn lemma_insert_pos_bounds(s: Seq<CompositeView>, t: i64)
    ensures
        insert_pos(s, t) <= s.len(),
        forall|k: int| 0 <= k < insert_pos(s, t) ==> #[trigger] s[k].published_at >= t,
        insert_pos(s, t) < s.len() ==> s[insert_pos(s, t) as int].published_at < t,
    decreases s.len(),
{
    if s.len() > 0 && s[0].published_at >= t {
        let d = s.drop_first();
        lemma_insert_pos_bounds(d, t);
        assert forall|k: int| 0 <= k < insert_pos(s, t) implies #[trigger] s[k].published_at >= t by {
            if k > 0 {
                assert(s[k] == d[k - 1]);
            }
        }
    }
}

/// Inserting into a list ordered newest first keeps it so.
proof fn lemma_insert_desc_sorted(s: Seq<CompositeView>, x: CompositeView)
    requires
        sorted_desc(s),
    ensures
        sorted_desc(insert_desc(s, x)),
        insert_desc(s, x).len() == s.len() + 1,
{
    lemma_insert_pos_bounds(s, x.published_at);
    let p = insert_pos(s, x.published_at) as int;
    let r = insert_desc(s, x);
    assert forall|i: int, j: int| 0 <= i < j < r.len() implies #[trigger] r[i].published_at
        >= #[trigger] r[j].published_at by {
        if j < p {
        } else if j == p {
            assert(r[i] == s[i]);
        } else if i < p {
            assert(r[j] == s[j - 1]);
            assert(s[i].published_at >= s[p].published_at);
        } else if i == p {
            assert(r[j] == s[j - 1]);
            assert(s[p].published_at >= s[j - 1].published_at);
        } else {
            assert(r[i] == s[i - 1]);
            assert(r[j] == s[j - 1]);
        }
    }
}

/// Every prefix listing is ordered newest first.
pub proof fn lemma_listing_sorted(s: StoreView, ch: i32, u: i32, n: nat)
    ensures
        sorted_desc(listing(s, ch, u, n)),
    decreases n,
{
    if n > 0 && n <= s.items.len() {
        lemma_listing_sorted(s, ch, u, (n - 1) as nat);
        let it = s.items[n - 1];
        if it.feed_channel_id == ch {
            lemma_insert_desc_sorted(listing(s, ch, u, (n - 1) as nat), composite_of(it, seen_of(s, u, it.id)));
        }
    }
}

/// Growing channels and items keeps the references of subscriptions and seen rows valid.
proof fn lemma_refs_grow(a: StoreView, b: StoreView)
    requires
        wf_subscriptions(a),
        wf_seen(a),
        b.subscriptions == a.subscriptions,
        b.seen == a.seen,
        b.users == a.users,
        b.channels.len() >= a.channels.len(),
        b.items.len() >= a.items.len(),
    ensures
        wf_subscriptions(b),
        wf_seen(b),
{
    assert forall|i: int| 0 <= i < b.subscriptions.len() implies user_exists(b, #[trigger] b.subscriptions[i].user_id)
        && channel_exists(b, b.subscriptions[i].feed_channel_id) by {
        assert(user_exists(a, a.subscriptions[i].user_id));
    }
    assert forall|i: int| 0 <= i < b.seen.len() implies user_exists(b, #[trigger] b.seen[i].user_id)
        && item_exists(b, b.seen[i].feed_item_id) by {
        assert(user_exists(a, a.seen[i].user_id));
    }
}

/// What the item rows must satisfy among `nch` channels.
pub open spec fn items_ok(items: Seq<ItemView>, nch: int) -> bool {
    &&& ids_ok(items.map_values(|i: ItemView| i.id))
    &&& forall|i: int| 0 <= i < items.len() ==> 1 <= #[trigger] items[i].feed_channel_id <= nch
    &&& forall|i: int, j: int|
        0 <= i < j < items.len() ==> !(#[trigger] items[i].feed_channel_id
            == #[trigger] items[j].feed_channel_id && items[i].guid == items[j].guid)
}

proof fn lemma_merged_grows(items: Seq<ItemView>, ch: i32, ps: Seq<ParsedItemView>, n: nat)
    ensures
        merged(items, ch, ps, n).len() >= items.len(),
        merged(items, ch, ps, n).len() <= items.len() + n,
        forall|i: int| 0 <= i < items.len() ==> #[trigger] merged(items, ch, ps, n)[i] == items[i],
    decreases n,
{
    if n > 0 && n <= ps.len() {
        lemma_merged_grows(items, ch, ps, (n - 1) as nat);
    }
}

proof fn lemma_has_guid_grows(a: Seq<ItemView>, b: Seq<ItemView>, ch: i32, g: Seq<char>)
    requires
        has_guid(a, ch, g),
        b.len() >= a.len(),
        forall|i: int| 0 <= i < a.len() ==> #[trigger] b[i] == a[i],
    ensures
        has_guid(b, ch, g),
{
    let k = choose|k: int| 0 <= k < a.len() && #[trigger] a[k].feed_channel_id == ch && a[k].guid == g;
    assert(b[k] == a[k]);
}

/// After the first `n` entries are reconciled, the channel holds each of their GUIDs.
proof fn lemma_merged_holds(items: Seq<ItemView>, ch: i32, ps: Seq<ParsedItemView>, n: nat)
    requires
        n <= ps.len(),
    ensures
        forall|k: int| 0 <= k < n ==> has_guid(merged(items, ch, ps, n), ch, #[trigger] ps[k].guid),
    decreases n,
{
    if n > 0 {
        let m = (n - 1) as nat;
        lemma_merged_holds(items, ch, ps, m);
        let prev = merged(items, ch, ps, m);
        let cur = merged(items, ch, ps, n);
        lemma_merged_grows(prev, ch, ps, 0);
        assert forall|i: int| 0 <= i < prev.len() implies #[trigger] cur[i] == prev[i] by {}
        assert forall|k: int| 0 <= k < n implies has_guid(cur, ch, #[trigger] ps[k].guid) by {
            if k < m {
                lemma_has_guid_grows(prev, cur, ch, ps[k].guid);
            } else if !has_guid(prev, ch, ps[k].guid) {
                assert(cur[prev.len() as int].feed_channel_id == ch);
            }
        }
    }
}

/// Reconciling entries whose GUIDs the channel already holds changes nothing.
proof fn lemma_merged_noop(items: Seq<ItemView>, ch: i32, ps: Seq<ParsedItemView>, n: nat)
    requires
        forall|k: int| 0 <= k < ps.len() ==> has_guid(items, ch, #[trigger] ps[k].guid),
    ensures
        merged(items, ch, ps, n) == items,
    decreases n,
{
    if n > 0 && n <= ps.len() {
        lemma_merged_noop(items, ch, ps, (n - 1) as nat);
        assert(has_guid(items, ch, ps[n - 1].guid));
    }
}

proof fn lemma_merged_ok(items: Seq<ItemView>, ch: i32, ps: Seq<ParsedItemView>, n: nat, nch: int)
    requires
        items_ok(items, nch),
        1 <= ch <= nch,
        items.len() + n + 1 < i32::MAX,
    ensures
        items_ok(merged(items, ch, ps, n), nch),
    decreases n,
{
    if n > 0 && n <= ps.len() {
        let m = (n - 1) as nat;
        lemma_merged_ok(items, ch, ps, m, nch);
        lemma_merged_grows(items, ch, ps, m);
        let prev = merged(items, ch, ps, m);
        let p = ps[n - 1];
        if !has_guid(prev, ch, p.guid) {
            let cur = prev.push(new_item(prev.len() as int + 1, ch, p));
            assert(cur.map_values(|i: ItemView| i.id) =~= prev.map_values(|i: ItemView| i.id).push(
                (prev.len() + 1) as i32,
            ));
            assert forall|i: int, j: int| 0 <= i < j < cur.len() implies !(#[trigger] cur[i].feed_channel_id
                == #[trigger] cur[j].feed_channel_id && cur[i].guid == cur[j].guid) by {
                assert(cur[i] == prev[i]);
                if j < prev.len() {
                    assert(cur[j] == prev[j]);
                }
            }
            assert forall|i: int| 0 <= i < cur.len() implies 1 <= #[trigger] cur[i].feed_channel_id <= nch by {
                if i < prev.len() {
                    assert(cur[i] == prev[i]);
                }
            }
        }
    }
}

proof fn lemma_channels_ok(s: StoreView, f: ParsedFeedView, now: i64)
    requires
        wf(s),
        s.channels.len() + 1 < i32::MAX,
    ensures
        ids_ok(ingest_channels(s.channels, f, now).map_values(|c: ChannelView| c.id)),
        wf_channels(StoreView { channels: ingest_channels(s.channels, f, now), ..s }),
        ingest_channels(s.channels, f, now).len() >= s.channels.len(),
        has_channel(ingest_channels(s.channels, f, now), f.feed_link),
        channel_at(ingest_channels(s.channels, f, now), f.feed_link) == ingest_channel_id(
            s.channels,
            f,
        ) - 1,
        1 <= ingest_channel_id(s.channels, f) <= ingest_channels(s.channels, f, now).len(),
        forall|i: int|
            0 <= i < s.channels.len() ==> #[trigger] ingest_channels(s.channels, f, now)[i].feed_link
                == s.channels[i].feed_link,
{
    let chs = s.channels;
    let r = ingest_channels(chs, f, now);
    let ids0 = chs.map_values(|c: ChannelView| c.id);
    if has_channel(chs, f.feed_link) {
        let i = channel_at(chs, f.feed_link);
        assert(r.map_values(|c: ChannelView| c.id) =~= ids0);
        assert(ids0[i] == chs[i].id);
        assert(r[i].feed_link == f.feed_link);
        assert(wf_channels(StoreView { channels: r, ..s }));
    } else {
        assert(r.map_values(|c: ChannelView| c.id) =~= ids0.push((chs.len() + 1) as i32));
        assert(r[chs.len() as int].feed_link == f.feed_link);
        assert forall|a: int, b: int| 0 <= a < b < r.len() implies #[trigger] r[a].feed_link
            != #[trigger] r[b].feed_link by {
            assert(r[a] == chs[a]);
            if b < chs.len() {
                assert(r[b] == chs[b]);
            }
        }
    }
    let j = channel_at(r, f.feed_link);
    let want = ingest_channel_id(chs, f) - 1;
    assert(r[want].feed_link == f.feed_link);
    if j != want {
        if j < want {
            assert(r[j].feed_link != r[want].feed_link);
        } else {
            assert(r[want].feed_link != r[j].feed_link);
        }
    }
}

/// Reconciling a feed keeps the store's invariant.
pub proof fn lemma_ingest_wf(s: StoreView, f: ParsedFeedView, now: i64)
    requires
        wf(s),
        s.channels.len() + 1 < i32::MAX,
        s.items.len() + f.items.len() + 1 < i32::MAX,
    ensures
        wf(ingest_model(s, f, now)),
{
    let r = ingest_model(s, f, now);
    let ch = ingest_channel_id(s.channels, f);
    lemma_channels_ok(s, f, now);
    assert(items_ok(s.items, s.channels.len() as int));
    lemma_merged_ok(s.items, ch, f.items, f.items.len(), r.channels.len() as int);
    lemma_merged_grows(s.items, ch, f.items, f.items.len());
    lemma_refs_grow(s, r);
    assert(wf_items(r));
}

/// Reconciling the same feed document twice stores what reconciling it once
/// did: the same items, the same channels, and the one channel of the feed's
/// link differs at most by the time of its refresh.
pub proof fn lemma_ingest_idempotent(s: StoreView, f: ParsedFeedView, t1: i64, t2: i64)
    requires
        wf(s),
        s.channels.len() + 1 < i32::MAX,
        s.items.len() + f.items.len() + 1 < i32::MAX,
    ensures
        ({
            let s1 = ingest_model(s, f, t1);
            let s2 = ingest_model(s1, f, t2);
            let ci = ingest_channel_id(s.channels, f) - 1;
            &&& ingest_channel_id(s1.channels, f) == ingest_channel_id(s.channels, f)
            &&& s2.items == s1.items
            &&& s2.channels == s1.channels.update(ci, ChannelView { updated_at: t2, ..s1.channels[ci] })
            &&& s2.subscriptions == s1.subscriptions
            &&& s2.seen == s1.seen
            &&& s2.users == s1.users
            &&& t1 == t2 ==> s2 == s1
        }),
{
    let s1 = ingest_model(s, f, t1);
    let ch = ingest_channel_id(s.channels, f);
    lemma_channels_ok(s, f, t1);
    lemma_ingest_wf(s, f, t1);
    let ci = channel_at(s1.channels, f.feed_link);
    assert(ci == ch - 1);
    assert(s1.channels[ci].id == ch) by {
        assert(s1.channels.map_values(|c: ChannelView| c.id)[ci] == ci + 1);
    }
    lemma_merged_holds(s.items, ch, f.items, f.items.len());
    lemma_merged_noop(s1.items, ch, f.items, f.items.len());
    let s2 = ingest_model(s1, f, t2);
    assert(s2.channels =~= s1.channels.update(ci, ChannelView { updated_at: t2, ..s1.channels[ci] }));
    if t1 == t2 {
        assert(s1.channels[ci].updated_at == t1);
        assert(s2.channels =~= s1.channels);
    }
}

/// After a feed is reconciled, exactly one channel has its link and, for each
/// GUID of the document, exactly one item of that channel has it.
pub proof fn lemma_ingest_unique(s: StoreView, f: ParsedFeedView, now: i64)
    requires
        wf(s),
        s.channels.len() + 1 < i32::MAX,
        s.items.len() + f.items.len() + 1 < i32::MAX,
    ensures
        ({
            let s1 = ingest_model(s, f, now);
            let ch = ingest_channel_id(s.channels, f);
            &&& wf(s1)
            &&& has_channel(s1.channels, f.feed_link)
            &&& forall|i: int, j: int|
                0 <= i < s1.channels.len() && 0 <= j < s1.channels.len() && #[trigger] s1.channels[i].feed_link
                    == f.feed_link && #[trigger] s1.channels[j].feed_link == f.feed_link ==> i == j
            &&& forall|k: int| 0 <= k < f.items.len() ==> has_guid(s1.items, ch, #[trigger] f.items[k].guid)
            &&& forall|i: int, j: int|
                0 <= i < s1.items.len() && 0 <= j < s1.items.len() && #[trigger] s1.items[i].feed_channel_id
                    == ch && #[trigger] s1.items[j].feed_channel_id == ch && s1.items[i].guid
                    == s1.items[j].guid ==> i == j
        }),
{
    let s1 = ingest_model(s, f, now);
    lemma_channels_ok(s, f, now);
    lemma_ingest_wf(s, f, now);
    lemma_merged_holds(s.items, ingest_channel_id(s.channels, f), f.items, f.items.len());
    assert forall|i: int, j: int|
        0 <= i < s1.channels.len() && 0 <= j < s1.channels.len() && #[trigger] s1.channels[i].feed_link
            == f.feed_link && #[trigger] s1.channels[j].feed_link == f.feed_link implies i == j by {
        if i < j {
            assert(s1.channels[i].feed_link != s1.channels[j].feed_link);
        } else if j < i {
            assert(s1.channels[j].feed_link != s1.channels[i].feed_link);
        }
    }
    let ch = ingest_channel_id(s.channels, f);
    assert forall|i: int, j: int|
        0 <= i < s1.items.len() && 0 <= j < s1.items.len() && #[trigger] s1.items[i].feed_channel_id
            == ch && #[trigger] s1.items[j].feed_channel_id == ch && s1.items[i].guid
            == s1.items[j].guid implies i == j by {
        if i < j {
            assert(!(s1.items[i].feed_channel_id == s1.items[j].feed_channel_id && s1.items[i].guid == s1.items[j].guid));
        } else if j < i {
            assert(!(s1.items[j].feed_channel_id == s1.items[i].feed_channel_id && s1.items[j].guid == s1.items[i].guid));
        }
    }
}

/// Two feeds with different links each keep an item with a GUID that both
/// documents carry: GUIDs are unique within a channel, not across channels.
pub proof fn lemma_dedup_per_channel(
    s: StoreView,
    f1: ParsedFeedView,
    f2: ParsedFeedView,
    t1: i64,
    t2: i64,
    k1: int,
    k2: int,
)
    requires
        wf(s),
        s.channels.len() + 2 < i32::MAX,
        s.items.len() + f1.items.len() + f2.items.len() + 1 < i32::MAX,
        f1.feed_link != f2.feed_link,
        0 <= k1 < f1.items.len(),
        0 <= k2 < f2.items.len(),
        f1.items[k1].guid == f2.items[k2].guid,
    ensures
        ({
            let s1 = ingest_model(s, f1, t1);
            let s2 = ingest_model(s1, f2, t2);
            let c1 = ingest_channel_id(s.channels, f1);
            let c2 = ingest_channel_id(s1.channels, f2);
            &&& c1 != c2
            &&& has_guid(s2.items, c1, f1.items[k1].guid)
            &&& has_guid(s2.items, c2, f2.items[k2].guid)
        }),
{
    let s1 = ingest_model(s, f1, t1);
    let c1 = ingest_channel_id(s.channels, f1);
    lemma_channels_ok(s, f1, t1);
    lemma_ingest_wf(s, f1, t1);
    lemma_merged_grows(s.items, c1, f1.items, f1.items.len());
    lemma_channels_ok(s1, f2, t2);
    let s2 = ingest_model(s1, f2, t2);
    let c2 = ingest_channel_id(s1.channels, f2);
    // the first channel keeps its link, the second is found by the other link
    assert(s1.channels[c1 - 1].feed_link == f1.feed_link);
    assert(s2.channels[c1 - 1].feed_link == f1.feed_link);
    assert(s2.channels[c2 - 1].feed_link == f2.feed_link);
    lemma_merged_holds(s.items, c1, f1.items, f1.items.len());
    lemma_merged_holds(s1.items, c2, f2.items, f2.items.len());
    lemma_merged_grows(s1.items, c2, f2.items, f2.items.len());
    assert(has_guid(s1.items, c1, f1.items[k1].guid));
    lemma_has_guid_grows(s1.items, s2.items, c1, f1.items[k1].guid);
}

/// The store after the same feed document is reconciled once at each of the times `ts`, in order.
pub open spec fn ingest_repeated(s: StoreView, f: ParsedFeedView, ts: Seq<i64>) -> StoreView
    decreases ts.len(),
{
    if ts.len() == 0 {
        s
    } else {
        ingest_model(ingest_repeated(s, f, ts.drop_last()), f, ts.last())
    }
}

/// Reconciling a document into a store that already holds its channel and all its GUIDs adds nothing.
proof fn lemma_reingest(r: StoreView, f: ParsedFeedView, t: i64, ch: i32)
    requires
        wf(r),
        r.channels.len() + 1 < i32::MAX,
        r.items.len() + f.items.len() + 1 < i32::MAX,
        1 <= ch <= r.channels.len(),
        r.channels[ch - 1].feed_link == f.feed_link,
        forall|k: int| 0 <= k < f.items.len() ==> has_guid(r.items, ch, #[trigger] f.items[k].guid),
    ensures
        ingest_channel_id(r.channels, f) == ch,
        ingest_model(r, f, t).items == r.items,
        ingest_model(r, f, t).channels.len() == r.channels.len(),
        ingest_model(r, f, t).channels[ch - 1].feed_link == f.feed_link,
        wf(ingest_model(r, f, t)),
{
    lemma_channels_ok(r, f, t);
    lemma_ingest_wf(r, f, t);
    let i = channel_at(r.channels, f.feed_link);
    assert(r.channels[ch - 1].feed_link == f.feed_link);
    if i != ch - 1 {
        if i < ch - 1 {
            assert(r.channels[i].feed_link != r.channels[ch - 1].feed_link);
        } else {
            assert(r.channels[ch - 1].feed_link != r.channels[i].feed_link);
        }
    }
    assert(r.channels.map_values(|c: ChannelView| c.id)[ch - 1] == ch);
    lemma_merged_noop(r.items, ch, f.items, f.items.len());
}

/// However many times one feed document is reconciled, the store holds
/// exactly one channel with its link and, for each of its GUIDs, exactly one
/// item of that channel; the items are those of the first reconciliation.
pub proof fn lemma_repeated_ingest(s: StoreView, f: ParsedFeedView, ts: Seq<i64>)
    requires
        wf(s),
        ts.len() > 0,
        s.channels.len() + 2 < i32::MAX,
        s.items.len() + 2 * f.items.len() + 1 < i32::MAX,
    ensures
        ({
            let r = ingest_repeated(s, f, ts);
            let first = ingest_model(s, f, ts[0]);
            let ch = ingest_channel_id(s.channels, f);
            &&& wf(r)
            &&& r.items == first.items
            &&& r.channels.len() == first.channels.len()
            &&& 1 <= ch <= r.channels.len() && r.channels[ch - 1].feed_link == f.feed_link
            &&& forall|i: int|
                0 <= i < r.channels.len() && #[trigger] r.channels[i].feed_link == f.feed_link ==> i == ch - 1
            &&& forall|k: int| 0 <= k < f.items.len() ==> has_guid(r.items, ch, #[trigger] f.items[k].guid)
            &&& forall|i: int, j: int|
                0 <= i < r.items.len() && 0 <= j < r.items.len() && #[trigger] r.items[i].feed_channel_id
                    == ch && #[trigger] r.items[j].feed_channel_id == ch && r.items[i].guid
                    == r.items[j].guid ==> i == j
        }),
    decreases ts.len(),
{
    let r = ingest_repeated(s, f, ts);
    let first = ingest_model(s, f, ts[0]);
    let ch = ingest_channel_id(s.channels, f);
    lemma_channels_ok(s, f, ts[0]);
    lemma_ingest_wf(s, f, ts[0]);
    lemma_merged_holds(s.items, ch, f.items, f.items.len());
    lemma_merged_grows(s.items, ch, f.items, f.items.len());
    if ts.len() == 1 {
        assert(ts.drop_last() =~= Seq::<i64>::empty());
        assert(r == first);
    } else {
        let prev_ts = ts.drop_last();
        assert(prev_ts[0] == ts[0]);
        lemma_repeated_ingest(s, f, prev_ts);
        let prev = ingest_repeated(s, f, prev_ts);
        lemma_reingest(prev, f, ts.last(), ch);
    }
    assert forall|i: int|
        0 <= i < r.channels.len() && #[trigger] r.channels[i].feed_link == f.feed_link implies i == ch - 1 by {
        if i < ch - 1 {
            assert(r.channels[i].feed_link != r.channels[ch - 1].feed_link);
        } else if i > ch - 1 {
            assert(r.channels[ch - 1].feed_link != r.channels[i].feed_link);
        }
    }
    assert forall|i: int, j: int|
        0 <= i < r.items.len() && 0 <= j < r.items.len() && #[trigger] r.items[i].feed_channel_id
            == ch && #[trigger] r.items[j].feed_channel_id == ch && r.items[i].guid
            == r.items[j].guid implies i == j by {
        if i < j {
            assert(!(r.items[i].feed_channel_id == r.items[j].feed_channel_id && r.items[i].guid == r.items[j].guid));
        } else if j < i {
            assert(!(r.items[j].feed_channel_id == r.items[i].feed_channel_id && r.items[j].guid == r.items[i].guid));
        }
    }
}

/// A user who never marked an item reads it as unseen.
pub proof fn lemma_unseen_by_default(s: StoreView, u: i32, it: i32)
    requires
        !has_seen_row(s, u, it),
    ensures
        !seen_of(s, u, it),
{
    if seen_of(s, u, it) {
        let k = choose|k: int|
            0 <= k < s.seen.len() && #[trigger] s.seen[k].user_id == u && s.seen[k].feed_item_id == it
                && s.seen[k].seen;
        assert(s.seen[k].user_id == u);
    }
}

/// Changing only seen flags, not which (user, item) pairs have rows, keeps the seen rows valid.
proof fn lemma_seen_same_keys(a: StoreView, b: StoreView)
    requires
        wf_seen(a),
        b.users == a.users,
        b.items == a.items,
        b.seen.len() == a.seen.len(),
        forall|k: int| 0 <= k < b.seen.len() ==> #[trigger] b.seen[k].user_id == a.seen[k].user_id
            && b.seen[k].feed_item_id == a.seen[k].feed_item_id,
    ensures
        wf_seen(b),
{
    assert forall|i: int, j: int| 0 <= i < j < b.seen.len() implies !(#[trigger] b.seen[i].user_id
        == #[trigger] b.seen[j].user_id && b.seen[i].feed_item_id == b.seen[j].feed_item_id) by {
        assert(a.seen[i].user_id == b.seen[i].user_id);
        assert(a.seen[j].user_id == b.seen[j].user_id);
    }
    assert forall|k: int| 0 <= k < b.seen.len() implies user_exists(b, #[trigger] b.seen[k].user_id)
        && item_exists(b, b.seen[k].feed_item_id) by {
        assert(a.seen[k].user_id == b.seen[k].user_id);
        assert(user_exists(a, a.seen[k].user_id));
    }
}

/// The reader's state: channels, items, subscriptions, seen flags and users.
#[derive(Debug)]
pub struct Store {
    channels: Vec<FeedChannel>,
    items: Vec<FeedItem>,
    subscriptions: Vec<Subscription>,
    seen: Vec<SubscribedFeedItem>,
    users: Vec<User>,
}

impl View for Store {
    type V = StoreView;

    closed spec fn view(&self) -> StoreView {
        StoreView {
            channels: self.channels@.map_values(|c: FeedChannel| c@),
            items: self.items@.map_values(|i: FeedItem| i@),
            subscriptions: self.subscriptions@,
            seen: self.seen@,
            users: self.users@.map_values(|u: User| u@),
        }
    }
}

impl Store {
    /// An empty store.
    pub fn new() -> (r: Store)
        ensures
            wf(r@),
            r@.channels.len() == 0,
            r@.items.len() == 0,
            r@.subscriptions.len() == 0,
            r@.seen.len() == 0,
            r@.users.len() == 0,
    {
        let r = Store {
            channels: Vec::new(),
            items: Vec::new(),
            subscriptions: Vec::new(),
            seen: Vec::new(),
            users: Vec::new(),
        };
        assert(r@.channels.map_values(|c: ChannelView| c.id) =~= Seq::<i32>::empty());
        assert(r@.items.map_values(|i: ItemView| i.id) =~= Seq::<i32>::empty());
        assert(r@.subscriptions.map_values(|b: Subscription| b.id) =~= Seq::<i32>::empty());
        assert(r@.seen.map_values(|b: SubscribedFeedItem| b.id) =~= Seq::<i32>::empty());
        assert(r@.users.map_values(|u: UserView| u.id) =~= Seq::<i32>::empty());
        r
    }

    /// The position of the channel whose feed link is `link`, if any.
    fn find_channel(&self, link: &String) -> (r: Option<usize>)
        ensures
            match r {
                Some(i) => i < self@.channels.len() && self@.channels[i as int].feed_link == link@,
                None => !has_channel(self@.channels, link@),
            },
    {
        let mut i: usize = 0;
        while i < self.channels.len()
            invariant
                i <= self.channels.len(),
                forall|k: int| 0 <= k < i ==> self@.channels[k].feed_link != link@,
            decreases self.channels.len() - i,
        {
            if self.channels[i].feed_link == *link {
                return Some(i);
            }
            i += 1;
        }
        None
    }

    /// Whether channel `ch` already holds an item with this GUID.
    fn holds_guid(&self, ch: i32, guid: &String) -> (r: bool)
        ensures
            r == has_guid(self@.items, ch, guid@),
    {
        let mut i: usize = 0;
        while i < self.items.len()
            invariant
                i <= self.items.len(),
                forall|k: int|
                    0 <= k < i ==> !(#[trigger] self@.items[k].feed_channel_id == ch
                        && self@.items[k].guid == guid@),
            decreases self.items.len() - i,
        {
            if self.items[i].feed_channel_id == ch && self.items[i].guid == *guid {
                assert(self@.items[i as int].feed_channel_id == ch);
                return true;
            }
            i += 1;
        }
        false
    }

    /// Registers a user under a username that no user has yet; returns its identity.
    pub fn add_user(&mut self, username: String, password_hash: Vec<u8>) -> (r: Result<i32, StoreError>)
        requires
            wf(old(self)@),
            old(self)@.users.len() + 1 < i32::MAX,
        ensures
            wf(final(self)@),
            has_user(old(self)@, username@) ==> r == Err::<i32, StoreError>(StoreError::Duplicate)
                && final(self)@ == old(self)@,
            !has_user(old(self)@, username@) ==> r == Ok::<i32, StoreError>(
                (old(self)@.users.len() + 1) as i32,
            ) && final(self)@ == (StoreView {
                users: old(self)@.users.push(
                    UserView {
                        id: (old(self)@.users.len() + 1) as i32,
                        username: username@,
                        password_hash: password_hash@,
                    },
                ),
                ..old(self)@
            }),
    {
        if self.find_user(&username).is_some() {
            return Err(StoreError::Duplicate);
        }
        let ghost s0 = self@;
        let id = (self.users.len() + 1) as i32;
        let ghost nv = UserView { id, username: username@, password_hash: password_hash@ };
        self.users.push(User { id, username, password_hash });
        assert(self@.users =~= s0.users.push(nv));
        assert(self@.users.map_values(|u: UserView| u.id) =~= s0.users.map_values(|u: UserView| u.id).push(id));
        assert(wf_ids(self@));
        assert forall|i: int, j: int| 0 <= i < j < self@.users.len() implies #[trigger] self@.users[i].username
            != #[trigger] self@.users[j].username by {
            if j == s0.users.len() {
                assert(self@.users[i] == s0.users[i]);
            } else {
                assert(self@.users[i] == s0.users[i]);
                assert(self@.users[j] == s0.users[j]);
            }
        }
        assert(wf_users(self@));
        proof {
            assert forall|i: int| 0 <= i < self@.subscriptions.len() implies user_exists(self@, #[trigger] self@.subscriptions[i].user_id)
                && channel_exists(self@, self@.subscriptions[i].feed_channel_id) by {
                assert(user_exists(s0, s0.subscriptions[i].user_id));
            }
            assert forall|i: int| 0 <= i < self@.seen.len() implies user_exists(self@, #[trigger] self@.seen[i].user_id)
                && item_exists(self@, self@.seen[i].feed_item_id) by {
                assert(user_exists(s0, s0.seen[i].user_id));
            }
        }
        Ok(id)
    }

    /// The position of the user with this username, if any.
    fn find_user(&self, username: &str) -> (r: Option<usize>)
        ensures
            match r {
                Some(i) => i < self@.users.len() && self@.users[i as int].username == username@,
                None => !has_user(self@, username@),
            },
    {
        let name = username.to_owned();
        let mut i: usize = 0;
        while i < self.users.len()
            invariant
                i <= self.users.len(),
                name@ == username@,
                forall|k: int| 0 <= k < i ==> self@.users[k].username != username@,
            decreases self.users.len() - i,
        {
            if self.users[i].username == name {
                return Some(i);
            }
            i += 1;
        }
        None
    }

    /// The user with this username, if any.
    pub fn get_user(&self, username: &str) -> (r: Option<User>)
        requires
            wf(self@),
        ensures
            match r {
                Some(u) => exists|k: int| 0 <= k < self@.users.len() && #[trigger] self@.users[k] == u@
                    && u@.username == username@,
                None => !has_user(self@, username@),
            },
    {
        match self.find_user(username) {
            Some(i) => Some(self.users[i].copy()),
            None => None,
        }
    }

    /// Records that user `u` follows channel `c`; nothing changes if it already does.
    pub fn ensure_subscription(&mut self, u: i32, c: i32) -> (r: Result<(), StoreError>)
        requires
            wf(old(self)@),
            old(self)@.subscriptions.len() + 1 < i32::MAX,
        ensures
            wf(final(self)@),
            r is Ok <==> user_exists(old(self)@, u) && channel_exists(old(self)@, c),
            r is Err ==> r == Err::<(), StoreError>(StoreError::NotFound) && final(self)@ == old(self)@,
            r is Ok ==> subscribed(final(self)@, u, c),
            r is Ok && subscribed(old(self)@, u, c) ==> final(self)@ == old(self)@,
            r is Ok && !subscribed(old(self)@, u, c) ==> final(self)@ == (StoreView {
                subscriptions: old(self)@.subscriptions.push(
                    Subscription {
                        id: (old(self)@.subscriptions.len() + 1) as i32,
                        user_id: u,
                        feed_channel_id: c,
                    },
                ),
                ..old(self)@
            }),
    {
        if !(1 <= u && (u as usize) <= self.users.len() && 1 <= c && (c as usize)
            <= self.channels.len()) {
            return Err(StoreError::NotFound);
        }
        let mut i: usize = 0;
        while i < self.subscriptions.len()
            invariant
                i <= self.subscriptions.len(),
                wf(self@),
                user_exists(self@, u) && channel_exists(self@, c),
                forall|k: int|
                    0 <= k < i ==> !(#[trigger] self@.subscriptions[k].user_id == u
                        && self@.subscriptions[k].feed_channel_id == c),
            decreases self.subscriptions.len() - i,
        {
            if self.subscriptions[i].user_id == u && self.subscriptions[i].feed_channel_id == c {
                assert(self@.subscriptions[i as int].user_id == u);
                return Ok(());
            }
            i += 1;
        }
        let ghost s0 = self@;
        let id = (self.subscriptions.len() + 1) as i32;
        let b = Subscription { id, user_id: u, feed_channel_id: c };
        self.subscriptions.push(b);
        assert(self@.subscriptions.map_values(|b: Subscription| b.id) =~= s0.subscriptions.map_values(
            |b: Subscription| b.id,
        ).push(id));
        assert(self@.subscriptions[i as int] == b);
        assert(self@.subscriptions[s0.subscriptions.len() as int].user_id == u);
        assert(wf_ids(self@));
        assert forall|a: int, b: int| 0 <= a < b < self@.subscriptions.len() implies !(#[trigger] self@.subscriptions[a].user_id
            == #[trigger] self@.subscriptions[b].user_id && self@.subscriptions[a].feed_channel_id
            == self@.subscriptions[b].feed_channel_id) by {
            assert(self@.subscriptions[a] == s0.subscriptions[a]);
            if b < s0.subscriptions.len() {
                assert(self@.subscriptions[b] == s0.subscriptions[b]);
            }
        }
        assert forall|k: int| 0 <= k < self@.subscriptions.len() implies user_exists(self@, #[trigger] self@.subscriptions[k].user_id)
            && channel_exists(self@, self@.subscriptions[k].feed_channel_id) by {
            if k < s0.subscriptions.len() {
                assert(self@.subscriptions[k] == s0.subscriptions[k]);
                assert(user_exists(s0, s0.subscriptions[k].user_id));
            }
        }
        assert(wf_subscriptions(self@));
        assert(wf_channels(self@));
        assert(wf_items(self@));
        assert(wf_seen(self@));
        assert(wf_users(self@));
        Ok(())
    }

    /// The position of the seen row of user `u` on item `it`, if any.
    fn find_seen(&self, u: i32, it: i32) -> (r: Option<usize>)
        ensures
            match r {
                Some(i) => i < self@.seen.len() && self@.seen[i as int].user_id == u
                    && self@.seen[i as int].feed_item_id == it,
                None => !has_seen_row(self@, u, it),
            },
    {
        let mut i: usize = 0;
        while i < self.seen.len()
            invariant
                i <= self.seen.len(),
                forall|k: int|
                    0 <= k < i ==> !(#[trigger] self@.seen[k].user_id == u && self@.seen[k].feed_item_id
                        == it),
            decreases self.seen.len() - i,
        {
            if self.seen[i].user_id == u && self.seen[i].feed_item_id == it {
                return Some(i);
            }
            i += 1;
        }
        None
    }

    /// The seen flag of user `u` on item `it`; false where none was recorded.
    pub fn get_seen(&self, u: i32, it: i32) -> (r: bool)
        requires
            wf(self@),
        ensures
            r == seen_of(self@, u, it),
    {
        match self.find_seen(u, it) {
            Some(i) => {
                let f = self.seen[i].seen;
                proof {
                    if seen_of(self@, u, it) {
                        let k = choose|k: int|
                            0 <= k < self@.seen.len() && #[trigger] self@.seen[k].user_id == u
                                && self@.seen[k].feed_item_id == it && self@.seen[k].seen;
                        if k != i {
                            if k < i {
                                assert(self@.seen[k].user_id == self@.seen[i as int].user_id);
                            } else {
                                assert(self@.seen[i as int].user_id == self@.seen[k].user_id);
                            }
                        }
                    }
                }
                f
            },
            None => false,
        }
    }

    /// Sets the seen flag of user `u` on item `it` to `seen`, leaving every other
    /// (user, item) flag as it was.
    pub fn set_seen(&mut self, u: i32, it: i32, seen: bool) -> (r: Result<(), StoreError>)
        requires
            wf(old(self)@),
            old(self)@.seen.len() + 1 < i32::MAX,
        ensures
            wf(final(self)@),
            r is Ok <==> user_exists(old(self)@, u) && item_exists(old(self)@, it),
            r is Err ==> r == Err::<(), StoreError>(StoreError::NotFound) && final(self)@ == old(self)@,
            r is Ok ==> seen_of(final(self)@, u, it) == seen,
            forall|u2: i32, it2: i32|
                !(u2 == u && it2 == it) ==> seen_of(final(self)@, u2, it2) == seen_of(old(self)@, u2, it2),
            final(self)@.channels == old(self)@.channels,
            final(self)@.items == old(self)@.items,
            final(self)@.subscriptions == old(self)@.subscriptions,
            final(self)@.users == old(self)@.users,
            r is Ok && has_seen_row(old(self)@, u, it) ==> final(self)@.seen.len() == old(self)@.seen.len(),
            r is Ok && !has_seen_row(old(self)@, u, it) ==> final(self)@.seen.len() == old(self)@.seen.len() + 1,
    {
        if !(1 <= u && (u as usize) <= self.users.len() && 1 <= it && (it as usize)
            <= self.items.len()) {
            return Err(StoreError::NotFound);
        }
        let ghost s0 = self@;
        match self.find_seen(u, it) {
            Some(i) => {
                let row = SubscribedFeedItem {
                    id: self.seen[i].id,
                    feed_item_id: it,
                    user_id: u,
                    seen,
                };
                self.seen.set(i, row);
                assert(self@.seen.map_values(|r: SubscribedFeedItem| r.id) =~= s0.seen.map_values(
                    |r: SubscribedFeedItem| r.id,
                ));
                assert(self@.seen[i as int] == row);
                assert(wf_ids(self@));
                assert forall|k: int| 0 <= k < self@.seen.len() implies #[trigger] self@.seen[k].user_id
                    == s0.seen[k].user_id && self@.seen[k].feed_item_id == s0.seen[k].feed_item_id by {}
                proof {
                    lemma_seen_same_keys(s0, self@);
                }
                assert(wf_seen(self@));
                assert forall|u2: i32, it2: i32| !(u2 == u && it2 == it) implies seen_of(self@, u2, it2)
                    == seen_of(s0, u2, it2) by {
                    if seen_of(self@, u2, it2) {
                        let k = choose|k: int|
                            0 <= k < self@.seen.len() && #[trigger] self@.seen[k].user_id == u2
                                && self@.seen[k].feed_item_id == it2 && self@.seen[k].seen;
                        assert(s0.seen[k].user_id == u2);
                    }
                    if seen_of(s0, u2, it2) {
                        let k = choose|k: int|
                            0 <= k < s0.seen.len() && #[trigger] s0.seen[k].user_id == u2
                                && s0.seen[k].feed_item_id == it2 && s0.seen[k].seen;
                        assert(self@.seen[k].user_id == u2);
                    }
                }
                if seen {
                    assert(self@.seen[i as int].user_id == u);
                } else {
                    assert forall|k: int| 0 <= k < self@.seen.len() && #[trigger] self@.seen[k].user_id == u
                        && self@.seen[k].feed_item_id == it implies !self@.seen[k].seen by {
                        if k < i {
                            assert(self@.seen[k].user_id == self@.seen[i as int].user_id);
                        } else if k > i {
                            assert(self@.seen[i as int].user_id == self@.seen[k].user_id);
                        }
                    }
                }
            },
            None => {
                let id = (self.seen.len() + 1) as i32;
                let row = SubscribedFeedItem { id, feed_item_id: it, user_id: u, seen };
                self.seen.push(row);
                assert(self@.seen.map_values(|r: SubscribedFeedItem| r.id) =~= s0.seen.map_values(
                    |r: SubscribedFeedItem| r.id,
                ).push(id));
                assert(self@.seen[s0.seen.len() as int] == row);
                assert(wf_ids(self@));
                assert forall|a: int, b: int| 0 <= a < b < self@.seen.len() implies !(#[trigger] self@.seen[a].user_id
                    == #[trigger] self@.seen[b].user_id && self@.seen[a].feed_item_id == self@.seen[b].feed_item_id) by {
                    assert(self@.seen[a] == s0.seen[a]);
                    if b < s0.seen.len() {
                        assert(self@.seen[b] == s0.seen[b]);
                    }
                }
                assert forall|k: int| 0 <= k < self@.seen.len() implies user_exists(self@, #[trigger] self@.seen[k].user_id)
                    && item_exists(self@, self@.seen[k].feed_item_id) by {
                    if k < s0.seen.len() {
                        assert(self@.seen[k] == s0.seen[k]);
                        assert(user_exists(s0, s0.seen[k].user_id));
                    }
                }
                assert(wf_seen(self@));
                assert forall|u2: i32, it2: i32| !(u2 == u && it2 == it) implies seen_of(self@, u2, it2)
                    == seen_of(s0, u2, it2) by {
                    if seen_of(self@, u2, it2) {
                        let k = choose|k: int|
                            0 <= k < self@.seen.len() && #[trigger] self@.seen[k].user_id == u2
                                && self@.seen[k].feed_item_id == it2 && self@.seen[k].seen;
                        assert(self@.seen[k] == s0.seen[k]);
                    }
                    if seen_of(s0, u2, it2) {
                        let k = choose|k: int|
                            0 <= k < s0.seen.len() && #[trigger] s0.seen[k].user_id == u2
                                && s0.seen[k].feed_item_id == it2 && s0.seen[k].seen;
                        assert(self@.seen[k] == s0.seen[k]);
                    }
                }
                if seen {
                    assert(self@.seen[s0.seen.len() as int].user_id == u);
                } else {
                    assert forall|k: int| 0 <= k < self@.seen.len() && #[trigger] self@.seen[k].user_id == u
                        && self@.seen[k].feed_item_id == it implies !self@.seen[k].seen by {
                        if k < s0.seen.len() {
                            assert(self@.seen[k] == s0.seen[k]);
                        }
                    }
                }
            },
        }
        assert(self@.subscriptions == s0.subscriptions);
        assert(self@.users == s0.users);
        assert(self@.channels == s0.channels);
        assert(wf_channels(self@));
        assert(wf_items(self@));
        assert forall|k: int| 0 <= k < self@.subscriptions.len() implies user_exists(self@, #[trigger] self@.subscriptions[k].user_id)
            && channel_exists(self@, self@.subscriptions[k].feed_channel_id) by {
            assert(user_exists(s0, s0.subscriptions[k].user_id));
        }
        assert(wf_subscriptions(self@));
        assert(wf_users(self@));
        Ok(())
    }

    /// The composite items of channel `ch` for user `u`, newest first.
    pub fn list_composite(&self, ch: i32, u: i32) -> (r: Vec<CompositeFeedItem>)
        requires
            wf(self@),
        ensures
            r@.map_values(|c: CompositeFeedItem| c@) == list_model(self@, ch, u),
            sorted_desc(r@.map_values(|c: CompositeFeedItem| c@)),
    {
        let mut out: Vec<CompositeFeedItem> = Vec::new();
        let mut n: usize = 0;
        assert(out@.map_values(|c: CompositeFeedItem| c@) =~= listing(self@, ch, u, 0));
        while n < self.items.len()
            invariant
                n <= self.items.len(),
                wf(self@),
                out@.map_values(|c: CompositeFeedItem| c@) == listing(self@, ch, u, n as nat),
            decreases self.items.len() - n,
        {
            let it = &self.items[n];
            assert(self@.items[n as int] == it@);
            if it.feed_channel_id == ch {
                let seen = self.get_seen(u, it.id);
                let c = CompositeFeedItem {
                    item_id: it.id,
                    title: it.title.clone(),
                    link: Some(it.link.clone()),
                    description: it.description.clone(),
                    published_at: it.published_at,
                    content: clone_opt(&it.content),
                    seen,
                };
                assert(c@ == composite_of(it@, seen_of(self@, u, it.id)));
                let ghost prev = out@.map_values(|c: CompositeFeedItem| c@);
                let t = it.published_at;
                let mut p: usize = 0;
                while p < out.len() && out[p].published_at >= t
                    invariant
                        p <= out.len(),
                        prev == out@.map_values(|c: CompositeFeedItem| c@),
                        forall|k: int| 0 <= k < p ==> #[trigger] prev[k].published_at >= t,
                    decreases out.len() - p,
                {
                    p += 1;
                }
                proof {
                    lemma_insert_pos(prev, t, p as int);
                }
                out.insert(p, c);
                assert(out@.map_values(|c: CompositeFeedItem| c@) =~= prev.insert(p as int, c@));
            }
            n += 1;
        }
        proof {
            lemma_listing_sorted(self@, ch, u, self@.items.len());
        }
        out
    }

    /// Every stored channel, in order of creation.
    pub fn get_channels(&self) -> (r: Vec<FeedChannel>)
        ensures
            r@.map_values(|c: FeedChannel| c@) == self@.channels,
    {
        let mut out: Vec<FeedChannel> = Vec::new();
        let mut i: usize = 0;
        while i < self.channels.len()
            invariant
                i <= self.channels.len(),
                out@.map_values(|c: FeedChannel| c@) == self@.channels.subrange(0, i as int),
            decreases self.channels.len() - i,
        {
            let ghost prev = out@.map_values(|c: FeedChannel| c@);
            out.push(self.channels[i].copy());
            assert(out@.map_values(|c: FeedChannel| c@) =~= prev.push(self@.channels[i as int]));
            i += 1;
            assert(out@.map_values(|c: FeedChannel| c@) =~= self@.channels.subrange(0, i as int));
        }
        assert(self@.channels.subrange(0, i as int) =~= self@.channels);
        out
    }

    /// The item with identity `id`, if it exists.
    pub fn get_item(&self, id: i32) -> (r: Option<FeedItem>)
        requires
            wf(self@),
        ensures
            item_exists(self@, id) ==> r is Some && r->0@ == self@.items[id - 1],
            !item_exists(self@, id) ==> r is None,
    {
        if 1 <= id && (id as usize) <= self.items.len() {
            Some(self.items[(id - 1) as usize].copy())
        } else {
            None
        }
    }

    /// The channel with identity `id` and its items in stored order, if it exists.
    pub fn get_channel_with_items(&self, id: i32) -> (r: Option<(FeedChannel, Vec<FeedItem>)>)
        requires
            wf(self@),
        ensures
            match r {
                Some(found) => channel_exists(self@, id) && found.0@ == self@.channels[id - 1]
                    && found.1@.map_values(|i: FeedItem| i@) == items_in(self@.items, id, self@.items.len()),
                None => !channel_exists(self@, id),
            },
    {
        if !(1 <= id && (id as usize) <= self.channels.len()) {
            return None;
        }
        let c = self.channels[(id - 1) as usize].copy();
        let mut out: Vec<FeedItem> = Vec::new();
        let mut n: usize = 0;
        assert(out@.map_values(|i: FeedItem| i@) =~= items_in(self@.items, id, 0));
        while n < self.items.len()
            invariant
                n <= self.items.len(),
                out@.map_values(|i: FeedItem| i@) == items_in(self@.items, id, n as nat),
            decreases self.items.len() - n,
        {
            if self.items[n].feed_channel_id == id {
                let ghost prev = out@.map_values(|i: FeedItem| i@);
                let it = self.items[n].copy();
                out.push(it);
                assert(out@.map_values(|i: FeedItem| i@) =~= prev.push(self@.items[n as int]));
            }
            n += 1;
        }
        Some((c, out))
    }

    /// The number of stored channels.
    pub fn channel_count(&self) -> (r: usize)
        ensures
            r == self@.channels.len(),
    {
        self.channels.len()
    }

    /// The number of stored items.
    pub fn item_count(&self) -> (r: usize)
        ensures
            r == self@.items.len(),
    {
        self.items.len()
    }

    /// The number of stored subscriptions.
    pub fn subscription_count(&self) -> (r: usize)
        ensures
            r == self@.subscriptions.len(),
    {
        self.subscriptions.len()
    }

    /// The number of stored seen rows.
    pub fn seen_count(&self) -> (r: usize)
        ensures
            r == self@.seen.len(),
    {
        self.seen.len()
    }

    /// The number of registered users.
    pub fn user_count(&self) -> (r: usize)
        ensures
            r == self@.users.len(),
    {
        self.users.len()
    }

    /// Reconciles a parsed feed into the store at time `now`: the channel with
    /// the feed's link is refreshed (or created), and each entry whose GUID the
    /// channel does not hold yet is added. Returns the channel's identity and
    /// the number of items added.
    pub fn ingest(&mut self, feed: &ParsedFeed, now: i64) -> (r: (i32, usize))
        requires
            wf(old(self)@),
            old(self)@.channels.len() + 1 < i32::MAX,
            old(self)@.items.len() + feed@.items.len() + 1 < i32::MAX,
        ensures
            final(self)@ == ingest_model(old(self)@, feed@, now),
            wf(final(self)@),
            r.0 == ingest_channel_id(old(self)@.channels, feed@),
            r.1 == final(self)@.items.len() - old(self)@.items.len(),
            channel_exists(final(self)@, r.0),
            final(self)@.channels[r.0 - 1].feed_link == feed@.feed_link,
    {
        let ghost s0 = self@;
        let n0 = self.items.len();
        let ch_id: i32;
        match self.find_channel(&feed.feed_link) {
            Some(i) => {
                proof {
                    let j = channel_at(s0.channels, feed@.feed_link);
                    assert(s0.channels[j].feed_link == feed@.feed_link);
                    assert(i == j);
                }
                let c = FeedChannel {
                    id: self.channels[i].id,
                    title: feed.title.clone(),
                    site_link: feed.site_link.clone(),
                    feed_link: self.channels[i].feed_link.clone(),
                    description: feed.description.clone(),
                    updated_at: now,
                };
                ch_id = self.channels[i].id;
                self.channels.set(i, c);
                assert(self@.channels =~= ingest_channels(s0.channels, feed@, now));
                assert(self@.channels.map_values(|c: ChannelView| c.id) =~= s0.channels.map_values(
                    |c: ChannelView| c.id,
                ));
                assert(s0.channels.map_values(|c: ChannelView| c.id)[i as int] == ch_id);
            },
            None => {
                ch_id = (self.channels.len() + 1) as i32;
                let c = FeedChannel {
                    id: ch_id,
                    title: feed.title.clone(),
                    site_link: feed.site_link.clone(),
                    feed_link: feed.feed_link.clone(),
                    description: feed.description.clone(),
                    updated_at: now,
                };
                self.channels.push(c);
                assert(self@.channels =~= ingest_channels(s0.channels, feed@, now));
                assert(self@.channels.map_values(|c: ChannelView| c.id) =~= s0.channels.map_values(
                    |c: ChannelView| c.id,
                ).push(ch_id));
            },
        }
        assert(ch_id == ingest_channel_id(s0.channels, feed@));
        proof {
            lemma_channels_ok(s0, feed@, now);
        }
        assert(wf_ids(self@));
        assert(wf_channels(self@));
        assert(wf_items(self@));
        proof {
            lemma_refs_grow(s0, self@);
        }
        let mut j: usize = 0;
        while j < feed.items.len()
            invariant
                j <= feed.items.len(),
                wf(self@),
                channel_exists(self@, ch_id),
                self@.channels == ingest_channels(s0.channels, feed@, now),
                self@.subscriptions == s0.subscriptions,
                self@.seen == s0.seen,
                self@.users == s0.users,
                self@.items == merged(s0.items, ch_id, feed@.items, j as nat),
                self@.items.len() <= s0.items.len() + j,
                self@.items.len() >= n0,
                n0 == s0.items.len(),
                s0.items.len() + feed@.items.len() + 1 < i32::MAX,
            decreases feed.items.len() - j,
        {
            let p = &feed.items[j];
            assert(feed@.items[j as int] == p@);
            if !self.holds_guid(ch_id, &p.guid) {
                let ghost before = self@;
                let it = FeedItem {
                    id: (self.items.len() + 1) as i32,
                    guid: p.guid.clone(),
                    title: p.title.clone(),
                    link: p.link.clone(),
                    description: p.description.clone(),
                    published_at: p.published_at,
                    feed_channel_id: ch_id,
                    content: clone_opt(&p.content),
                };
                self.items.push(it);
                assert(self@.items =~= before.items.push(new_item(before.items.len() as int + 1, ch_id, p@)));
                assert(self@.items.map_values(|i: ItemView| i.id) =~= before.items.map_values(
                    |i: ItemView| i.id,
                ).push(it.id));
                assert(wf_ids(self@));
                assert(wf_items(self@));
                proof {
                    lemma_refs_grow(before, self@);
                }
            }
            j += 1;
        }
        let added = self.items.len() - n0;
        (ch_id, added)
    }

    /// Reconciles a parsed feed as `ingest` does, or refuses with `Full`,
    /// changing nothing, where the identities of new rows could run out.
    pub fn try_ingest(&mut self, feed: &ParsedFeed, now: i64) -> (r: Result<(i32, usize), StoreError>)
        requires
            wf(old(self)@),
        ensures
            wf(final(self)@),
            ({
                let fits = old(self)@.channels.len() + 1 < i32::MAX && old(self)@.items.len()
                    + feed@.items.len() + 1 < i32::MAX;
                &&& fits ==> final(self)@ == ingest_model(old(self)@, feed@, now) && r == Ok::<
                    (i32, usize),
                    StoreError,
                >(
                    (
                        ingest_channel_id(old(self)@.channels, feed@),
                        (final(self)@.items.len() - old(self)@.items.len()) as usize,
                    ),
                )
                &&& fits ==> channel_exists(final(self)@, ingest_channel_id(old(self)@.channels, feed@))
                &&& !fits ==> final(self)@ == old(self)@ && r == Err::<(i32, usize), StoreError>(
                    StoreError::Full,
                )
            }),
    {
        let max = i32::MAX as usize;
        assert(self@.items.map_values(|i: ItemView| i.id).len() == self.items.len());
        if self.channels.len() >= max - 1 || feed.items.len() >= max - 1 - self.items.len() {
            return Err(StoreError::Full);
        }
        Ok(self.ingest(feed, now))
    }
}


} // verus!
