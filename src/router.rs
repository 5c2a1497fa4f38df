//! Request routing: an ordered table of (method, path pattern, handler)
//! entries, built once; the first entry whose method and pattern match a
//! request wins and hands the captured path pieces to its handler.
use vstd::prelude::*;
use vstd::string::StringSliceAdditionalSpecFns;

verus! {

/// An HTTP request method.
#[derive(Clone, Copy, Debug, PartialEq, Eq, Structural)]
pub enum Method {
    Get,
    Post,
    Put,
    Delete,
    Options,
    Head,
}

/// The endpoints a route can lead to.
#[derive(Clone, Copy, Debug, PartialEq, Eq, Structural)]
pub enum Handler {
    Home,
    Index,
    ShowAsset,
    ShowChannel,
    ShowItem,
    ShowItems,
    AddFeed,
    Login,
}

/// One piece of a path pattern, as a value.
pub enum PartView {
    Lit(Seq<u8>),
    Digits,
    Rest,
}

/// One piece of a path pattern: literal bytes, a capture of one or more ASCII
/// digits (as many as follow), or a capture of all remaining bytes (at least one).
#[derive(Debug)]
pub enum Part {
    Lit(Vec<u8>),
    Digits,
    Rest,
}

impl View for Part {
    type V = PartView;

    open spec fn view(&self) -> PartView {
        match self {
            Part::Lit(l) => PartView::Lit(l@),
            Part::Digits => PartView::Digits,
            Part::Rest => PartView::Rest,
        }
    }
}

pub struct RouteView {
    pub method: Method,
    pub pattern: Seq<PartView>,
    pub handler: Handler,
}

/// One entry of the routing table.
#[derive(Debug)]
pub struct Route {
    pub method: Method,
    pub pattern: Vec<Part>,
    pub handler: Handler,
}

impl View for Route {
    type V = RouteView;

    open spec fn view(&self) -> RouteView {
        RouteView {
            method: self.method,
            pattern: self.pattern@.map_values(|p: Part| p@),
            handler: self.handler,
        }
    }
}

pub open spec fn is_digit(b: u8) -> bool {
    48 <= b <= 57
}

/// The number of ASCII digits in `path` from position `pos` on.
pub open spec fn digit_run(path: Seq<u8>, pos: int) -> int
    decreases path.len() - pos,
{
    if 0 <= pos < path.len() && is_digit(path[pos]) {
        1 + digit_run(path, pos + 1)
    } else {
        0
    }
}

pub open spec fn glue(caps: Seq<Seq<u8>>, rest: Option<Seq<Seq<u8>>>) -> Option<Seq<Seq<u8>>> {
    match rest {
        Some(r) => Some(caps + r),
        None => None,
    }
}

/// The captures of matching the pattern from piece `pi` on against the whole
/// of `path` from position `pos` on, or `None` where it does not match.
pub open spec fn match_from(pat: Seq<PartView>, pi: int, path: Seq<u8>, pos: int) -> Option<
    Seq<Seq<u8>>,
>
    decreases pat.len() - pi,
{
    if pi < 0 || pos < 0 || pos > path.len() {
        None
    } else if pi >= pat.len() {
        if pos == path.len() {
            Some(Seq::empty())
        } else {
            None
        }
    } else {
        match pat[pi] {
            PartView::Lit(l) => {
                if pos + l.len() <= path.len() && path.subrange(pos, pos + l.len()) == l {
                    match_from(pat, pi + 1, path, pos + l.len())
                } else {
                    None
                }
            },
            PartView::Digits => {
                let n = digit_run(path, pos);
                if n == 0 {
                    None
                } else {
                    glue(seq![path.subrange(pos, pos + n)], match_from(pat, pi + 1, path, pos + n))
                }
            },
            PartView::Rest => {
                if pos == path.len() {
                    None
                } else {
                    glue(
                        seq![path.subrange(pos, path.len() as int)],
                        match_from(pat, pi + 1, path, path.len() as int),
                    )
                }
            },
        }
    }
}

/// The captures of matching a whole path against a pattern.
pub open spec fn pattern_match(pat: Seq<PartView>, path: Seq<u8>) -> Option<Seq<Seq<u8>>> {
    match_from(pat, 0, path, 0)
}

/// The first route from position `i` on that takes the request, with its captures.
pub open spec fn first_match(routes: Seq<RouteView>, i: int, m: Method, path: Seq<u8>) -> Option<
    (Handler, Seq<Seq<u8>>),
>
    decreases routes.len() - i,
{
    if i < 0 || i >= routes.len() {
        None
    } else if routes[i].method == m && pattern_match(routes[i].pattern, path) is Some {
        Some((routes[i].handler, pattern_match(routes[i].pattern, path)->0))
    } else {
        first_match(routes, i + 1, m, path)
    }
}

proof fn lemma_digit_run(path: Seq<u8>, pos: int, end: int)
    requires
        0 <= pos <= end <= path.len(),
        forall|k: int| pos <= k < end ==> is_digit(#[trigger] path[k]),
        end == path.len() || !is_digit(path[end]),
    ensures
        digit_run(path, pos) == end - pos,
    decreases end - pos,
{
    if pos < end {
        lemma_digit_run(path, pos + 1, end);
    }
}

/// A copy of `b[from..to]`.
fn copy_range(b: &[u8], from: usize, to: usize) -> (r: Vec<u8>)
    requires
        from <= to <= b@.len(),
    ensures
        r@ == b@.subrange(from as int, to as int),
{
    let mut r: Vec<u8> = Vec::new();
    let mut k = from;
    while k < to
        invariant
            from <= k <= to,
            to <= b@.len(),
            r@ == b@.subrange(from as int, k as int),
        decreases to - k,
    {
        r.push(b[k]);
        k += 1;
        assert(r@ =~= b@.subrange(from as int, k as int));
    }
    r
}

/// Whether `l` occurs in `path` at position `pos`.
fn bytes_at(path: &[u8], pos: usize, l: &Vec<u8>) -> (r: bool)
    requires
        pos + l@.len() <= path@.len(),
    ensures
        r == (path@.subrange(pos as int, pos + l@.len()) == l@),
{
    let mut k: usize = 0;
    while k < l.len()
        invariant
            k <= l@.len(),
            pos + l@.len() <= path@.len(),
            path@.len() == path.len(),
            forall|j: int| 0 <= j < k ==> path@[pos + j] == #[trigger] l@[j],
        decreases l.len() - k,
    {
        if path[pos + k] != l[k] {
            assert(path@.subrange(pos as int, pos + l@.len())[k as int] != l@[k as int]);
            return false;
        }
        k += 1;
    }
    assert(path@.subrange(pos as int, pos + l@.len()) =~= l@);
    true
}

/// The end of the run of ASCII digits that starts at `pos`.
fn digits_end(path: &[u8], pos: usize) -> (r: usize)
    requires
        pos <= path@.len(),
    ensures
        r == pos + digit_run(path@, pos as int),
        pos <= r <= path@.len(),
{
    let mut end = pos;
    while end < path.len() && 48 <= path[end] && path[end] <= 57
        invariant
            pos <= end <= path@.len(),
            forall|k: int| pos <= k < end ==> is_digit(#[trigger] path@[k]),
        decreases path.len() - end,
    {
        end += 1;
    }
    proof {
        lemma_digit_run(path@, pos as int, end as int);
    }
    end
}

/// Matches a whole path against a pattern, returning the captured pieces.
pub fn match_pattern(pat: &Vec<Part>, path: &[u8]) -> (r: Option<Vec<Vec<u8>>>)
    ensures
        match r {
            Some(caps) => pattern_match(pat@.map_values(|p: Part| p@), path@) == Some(
                caps@.map_values(|c: Vec<u8>| c@),
            ),
            None => pattern_match(pat@.map_values(|p: Part| p@), path@) is None,
        },
{
    let ghost pv = pat@.map_values(|p: Part| p@);
    let mut caps: Vec<Vec<u8>> = Vec::new();
    let mut pi: usize = 0;
    let mut pos: usize = 0;
    assert(caps@.map_values(|c: Vec<u8>| c@) =~= Seq::<Seq<u8>>::empty());
    assert(glue(Seq::empty(), match_from(pv, 0, path@, 0)) =~= match_from(pv, 0, path@, 0)) by {
        if match_from(pv, 0, path@, 0) is Some {
            assert(Seq::<Seq<u8>>::empty() + match_from(pv, 0, path@, 0)->0 =~= match_from(pv, 0, path@, 0)->0);
        }
    }
    while pi < pat.len()
        invariant
            pi <= pat.len(),
            pos <= path@.len(),
            pv == pat@.map_values(|p: Part| p@),
            pattern_match(pv, path@) == glue(caps@.map_values(|c: Vec<u8>| c@), match_from(pv, pi as int, path@, pos as int)),
        decreases pat.len() - pi,
    {
        let ghost cv = caps@.map_values(|c: Vec<u8>| c@);
        assert(pv[pi as int] == pat[pi as int]@);
        match &pat[pi] {
            Part::Lit(l) => {
                if l.len() > path.len() - pos || !bytes_at(path, pos, l) {
                    return None;
                }
                pos = pos + l.len();
            },
            Part::Digits => {
                let end = digits_end(path, pos);
                if end == pos {
                    return None;
                }
                let c = copy_range(path, pos, end);
                caps.push(c);
                assert(caps@.map_values(|c: Vec<u8>| c@) =~= cv.push(path@.subrange(pos as int, end as int)));
                proof {
                    let rest = match_from(pv, pi + 1, path@, end as int);
                    if rest is Some {
                        assert(cv + (seq![path@.subrange(pos as int, end as int)] + rest->0)
                            =~= cv.push(path@.subrange(pos as int, end as int)) + rest->0);
                    }
                }
                pos = end;
            },
            Part::Rest => {
                if pos == path.len() {
                    return None;
                }
                let c = copy_range(path, pos, path.len());
                caps.push(c);
                assert(caps@.map_values(|c: Vec<u8>| c@) =~= cv.push(path@.subrange(pos as int, path@.len() as int)));
                proof {
                    let rest = match_from(pv, pi + 1, path@, path@.len() as int);
                    if rest is Some {
                        assert(cv + (seq![path@.subrange(pos as int, path@.len() as int)] + rest->0)
                            =~= cv.push(path@.subrange(pos as int, path@.len() as int)) + rest->0);
                    }
                }
                pos = path.len();
            },
        }
        pi += 1;
    }
    if pos != path.len() {
        return None;
    }
    assert(caps@.map_values(|c: Vec<u8>| c@) + Seq::<Seq<u8>>::empty() =~= caps@.map_values(|c: Vec<u8>| c@));
    Some(caps)
}

/// A literal pattern piece holding the bytes of `s`.
pub fn lit(s: &str) -> (r: Part)
    ensures
        r@ == PartView::Lit(s.spec_bytes()),
{
    Part::Lit(vstd::slice::slice_to_vec(s.as_bytes()))
}

/// The routing table, consulted in order.
#[derive(Debug)]
pub struct Router {
    routes: Vec<Route>,
}

impl View for Router {
    type V = Seq<RouteView>;

    closed spec fn view(&self) -> Seq<RouteView> {
        self.routes@.map_values(|r: Route| r@)
    }
}

impl Router {
    /// An empty table.
    pub fn build() -> (r: Router)
        ensures
            r@ == Seq::<RouteView>::empty(),
    {
        let r = Router { routes: Vec::new() };
        assert(r@ =~= Seq::<RouteView>::empty());
        r
    }

    /// The table with one more entry at its end.
    pub fn route(self, method: Method, pattern: Vec<Part>, handler: Handler) -> (r: Router)
        ensures
            r@ == self@.push(
                RouteView { method, pattern: pattern@.map_values(|p: Part| p@), handler },
            ),
    {
        let mut routes = self.routes;
        let ghost before = routes@;
        let e = Route { method, pattern, handler };
        routes.push(e);
        let r = Router { routes };
        assert(r@ =~= before.map_values(|r: Route| r@).push(e@));
        r
    }

    /// The number of entries.
    pub fn len(&self) -> (r: usize)
        ensures
            r == self@.len(),
    {
        self.routes.len()
    }

    /// The handler of the first entry whose method is `m` and whose pattern
    /// matches the whole of `path`, with the captured pieces; `None` where no
    /// entry takes the request.
    pub fn dispatch(&self, m: Method, path: &str) -> (r: Option<(Handler, Vec<Vec<u8>>)>)
        ensures
            match r {
                Some(found) => first_match(self@, 0, m, path.spec_bytes()) == Some(
                    (found.0, found.1@.map_values(|c: Vec<u8>| c@)),
                ),
                None => first_match(self@, 0, m, path.spec_bytes()) is None,
            },
    {
        let bytes = path.as_bytes();
        let mut i: usize = 0;
        while i < self.routes.len()
            invariant
                i <= self.routes@.len(),
                bytes@ == path.spec_bytes(),
                first_match(self@, 0, m, bytes@) == first_match(self@, i as int, m, bytes@),
            decreases self.routes.len() - i,
        {
            let e = &self.routes[i];
            assert(self@[i as int] == e@);
            if e.method == m {
                match match_pattern(&e.pattern, bytes) {
                    Some(caps) => {
                        return Some((e.handler, caps));
                    },
                    None => {},
                }
            }
            i += 1;
        }
        None
    }
}

} // verus!
