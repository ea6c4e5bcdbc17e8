//! Routes, request paths, and the table that maps routes to handlers.
//!
//! A route is a `/`-separated list of parts; a part is either a literal
//! or the wildcard `*`, which matches whatever remains of a path.
use vstd::prelude::*;

use crate::text::is_white_space;
use crate::text::{
    chars_of, lemma_split_slash_nonempty, split_slash, split_slash_bounds, string_of,
    strip_slashes, strip_slashes_bounds, trim, trim_bounds,
};

verus! {

/// Mathematical form of a route part.
pub enum SpecRoutePart {
    Wildcard,
    Part(Seq<char>),
}

/// One part of a [`Route`].
pub enum RoutePart {
    Wildcard,
    Part(String),
}

impl View for RoutePart {
    type V = SpecRoutePart;

    open spec fn view(&self) -> SpecRoutePart {
        match self {
            RoutePart::Wildcard => SpecRoutePart::Wildcard,
            RoutePart::Part(s) => SpecRoutePart::Part(s@),
        }
    }
}

impl RoutePart {
    /// Whether the two parts are the same.
    pub fn same(&self, other: &RoutePart) -> (b: bool)
        ensures
            b == (self@ == other@),
    {
        match (self, other) {
            (RoutePart::Wildcard, RoutePart::Wildcard) => true,
            (RoutePart::Part(x), RoutePart::Part(y)) => *x == *y,
            _ => false,
        }
    }

    /// Whether this part is the literal `s`.
    pub fn is_literal(&self, s: &String) -> (b: bool)
        ensures
            b == (self@ == SpecRoutePart::Part(s@)),
    {
        match self {
            RoutePart::Wildcard => false,
            RoutePart::Part(a) => *a == *s,
        }
    }

    /// A copy of this part.
    pub fn duplicate(&self) -> (r: RoutePart)
        ensures
            r@ == self@,
    {
        match self {
            RoutePart::Wildcard => RoutePart::Wildcard,
            RoutePart::Part(a) => RoutePart::Part(a.clone()),
        }
    }
}

/// Errors of route and path parsing.
pub enum RouteError {
    Invalid,
}

/// The part that a piece of route text stands for: after trimming white
/// space, `*` is the wildcard and anything else a literal.
pub open spec fn spec_route_part(piece: Seq<char>) -> SpecRoutePart {
    if trim(piece) == seq!['*'] {
        SpecRoutePart::Wildcard
    } else {
        SpecRoutePart::Part(trim(piece))
    }
}

/// The parts of the route written as `s`: one trailing and then one leading
/// `/` are dropped, the rest is split at each `/`.
pub open spec fn spec_route_parts(s: Seq<char>) -> Seq<SpecRoutePart> {
    split_slash(strip_slashes(s)).map_values(|p: Seq<char>| spec_route_part(p))
}

/// The parts of the request path written as `s`: one trailing and then one
/// leading `/` are dropped, the rest is split at each `/` (no trimming).
pub open spec fn spec_path_parts(s: Seq<char>) -> Seq<Seq<char>> {
    split_slash(strip_slashes(s))
}

/// Whether `c` stands for itself in a URI path component: an ASCII letter
/// or digit, `-`, `.`, `_` or `~`.
pub open spec fn is_unreserved(c: char) -> bool {
    ('a' <= c && c <= 'z') || ('A' <= c && c <= 'Z') || ('0' <= c && c <= '9') || c == '-' || c
        == '.' || c == '_' || c == '~'
}

/// Whether `c` is a hexadecimal digit.
pub open spec fn is_hex_digit(c: char) -> bool {
    ('0' <= c && c <= '9') || ('a' <= c && c <= 'f') || ('A' <= c && c <= 'F')
}

/// Whether the character at `i` of `s` may stand in a path component: an
/// unreserved character, or the `%` of an escape followed by two
/// hexadecimal digits.
pub open spec fn component_char_ok(s: Seq<char>, i: int) -> bool {
    is_unreserved(s[i]) || (s[i] == '%' && i + 2 < s.len() && is_hex_digit(s[i + 1]) && is_hex_digit(
        s[i + 2],
    ))
}

/// Whether `s` is a valid URI path component: no delimiter (`/`, `?`, `#`,
/// ...) and no reserved character unless escaped.
pub open spec fn valid_component(s: Seq<char>) -> bool {
    forall|i: int| 0 <= i < s.len() ==> #[trigger] component_char_ok(s, i)
}

/// Whether a piece of route text is the wildcard or, trimmed, a valid
/// path component.
pub open spec fn valid_route_piece(piece: Seq<char>) -> bool {
    trim(piece) == seq!['*'] || valid_component(trim(piece))
}

/// Whether every part of the route text `s` is the wildcard or a valid
/// path component.
pub open spec fn valid_route_text(s: Seq<char>) -> bool {
    forall|i: int|
        0 <= i < split_slash(strip_slashes(s)).len() ==> valid_route_piece(
            #[trigger] split_slash(strip_slashes(s))[i],
        )
}

/// Whether every part of the request path `s` is a valid path component.
pub open spec fn valid_path_text(s: Seq<char>) -> bool {
    forall|i: int| 0 <= i < spec_path_parts(s).len() ==> valid_component(#[trigger] spec_path_parts(s)[i])
}

fn unreserved(c: char) -> (b: bool)
    ensures
        b == is_unreserved(c),
{
    (c >= 'a' && c <= 'z') || (c >= 'A' && c <= 'Z') || (c >= '0' && c <= '9') || c == '-' || c == '.'
        || c == '_' || c == '~'
}

fn hex_digit(c: char) -> (b: bool)
    ensures
        b == is_hex_digit(c),
{
    (c >= '0' && c <= '9') || (c >= 'a' && c <= 'f') || (c >= 'A' && c <= 'F')
}

/// Whether `cs[a..b]` is a valid path component.
fn component_valid(cs: &Vec<char>, a: usize, b: usize) -> (r: bool)
    requires
        a <= b <= cs.len(),
    ensures
        r == valid_component(cs@.subrange(a as int, b as int)),
{
    let ghost t = cs@.subrange(a as int, b as int);
    let mut i = a;
    while i < b
        invariant
            a <= i <= b <= cs.len(),
            t == cs@.subrange(a as int, b as int),
            forall|j: int| 0 <= j < i - a ==> #[trigger] component_char_ok(t, j),
        decreases b - i,
    {
        let c = cs[i];
        let ok = unreserved(c) || (c == '%' && b - i > 2 && hex_digit(cs[i + 1]) && hex_digit(cs[i + 2]));
        assert(ok == component_char_ok(t, i - a));
        if !ok {
            return false;
        }
        i += 1;
    }
    true
}

/// Describes a route.
///
/// Parts are separated by a slash (/) and parts can either be
/// a valid URI part or a wildcard.
pub struct Route {
    parts: Vec<RoutePart>,
}

impl View for Route {
    type V = Seq<SpecRoutePart>;

    closed spec fn view(&self) -> Seq<SpecRoutePart> {
        self.parts@.map_values(|p: RoutePart| p@)
    }
}

/// The views of a sequence of strings.
pub open spec fn string_views(s: Seq<String>) -> Seq<Seq<char>> {
    s.map_values(|x: String| x@)
}

/// Where `route` matches `path` when parts `0..i` already agree: `Some(k)`
/// when it matches and the path's parts from `k` on are left over for the
/// wildcard, `None` when it does not match.
pub open spec fn spec_match_from(route: Seq<SpecRoutePart>, path: Seq<Seq<char>>, i: int) -> Option<
    int,
>
    decreases path.len() - i,
{
    if i < path.len() {
        if 0 <= i < route.len() {
            match route[i] {
                SpecRoutePart::Wildcard => Some(i),
                SpecRoutePart::Part(r) => if r == path[i] {
                    spec_match_from(route, path, i + 1)
                } else {
                    None
                },
            }
        } else {
            None
        }
    } else if 0 <= i < route.len() {
        match route[i] {
            SpecRoutePart::Wildcard => Some(path.len() as int),
            SpecRoutePart::Part(_) => None,
        }
    } else {
        Some(path.len() as int)
    }
}

/// Whether `route` matches `path`, and at which part of the path the part
/// left over for the route's wildcard begins.
pub open spec fn spec_match(route: Seq<SpecRoutePart>, path: Seq<Seq<char>>) -> Option<int> {
    spec_match_from(route, path, 0)
}

impl Route {
    /// Creates a new route. Text whose parts are not, once trimmed, the
    /// wildcard `*` or valid path components is refused.
    pub fn new(path: &str) -> (res: Result<Self, RouteError>)
        ensures
            res is Ok <==> valid_route_text(path@),
            res matches Ok(r) ==> r@ == spec_route_parts(path@),
    {
        let cs = chars_of(path);
        let (lo, hi) = strip_slashes_bounds(&cs);
        let bounds = split_slash_bounds(&cs, lo, hi);
        let ghost pieces = split_slash(cs@.subrange(lo as int, hi as int));
        let mut parts: Vec<RoutePart> = Vec::new();
        let mut k: usize = 0;
        while k < bounds.len()
            invariant
                0 <= k <= bounds.len(),
                bounds.len() == pieces.len(),
                pieces == split_slash(strip_slashes(path@)),
                cs@ == path@,
                forall|j: int|
                    0 <= j < bounds.len() ==> {
                        &&& (#[trigger] bounds[j]).0 <= bounds[j].1 <= cs.len()
                        &&& cs@.subrange(bounds[j].0 as int, bounds[j].1 as int) == pieces[j]
                    },
                parts.len() == k,
                forall|j: int|
                    0 <= j < k ==> (#[trigger] parts[j])@ == spec_route_part(pieces[j]),
                forall|j: int| 0 <= j < k ==> valid_route_piece(#[trigger] pieces[j]),
            decreases bounds.len() - k,
        {
            let (a, b) = bounds[k];
            let (ta, tb) = trim_bounds(&cs, a, b);
            let part = if tb > ta && tb - ta == 1 && cs[ta] == '*' {
                assert(cs@.subrange(ta as int, tb as int) =~= seq!['*']);
                RoutePart::Wildcard
            } else {
                if !component_valid(&cs, ta, tb) {
                    proof {
                        let t = cs@.subrange(ta as int, tb as int);
                        if t == seq!['*'] {
                            assert(t.len() == 1);
                            assert(t[0] == cs@[ta as int]);
                        }
                        assert(!valid_route_piece(pieces[k as int]));
                    }
                    return Err(RouteError::Invalid);
                }
                let s = string_of(&cs, ta, tb);
                proof {
                    let t = cs@.subrange(ta as int, tb as int);
                    if t == seq!['*'] {
                        assert(t.len() == 1);
                        assert(t[0] == cs@[ta as int]);
                    }
                }
                RoutePart::Part(s)
            };
            parts.push(part);
            k += 1;
        }
        let r = Route { parts };
        assert(r@ =~= spec_route_parts(path@));
        assert(valid_route_text(path@));
        Ok(r)
    }

    /// Whether this route matches `path`; on a match, `excess` holds the
    /// parts of the path that the route's wildcard stands for.
    pub fn matches<'a>(&self, path: &'a Path) -> (res: RouteMatch<'a>)
        ensures
            match spec_match(self@, path@) {
                Some(k) => res matches RouteMatch::Match { excess } && string_views(excess@)
                    == path@.subrange(k, path@.len() as int),
                None => res is NotMatch,
            },
    {
        let n = path.parts.len();
        let m = self.parts.len();
        let mut i: usize = 0;
        proof {
            assert(spec_match(self@, path@) == spec_match_from(self@, path@, 0));
        }
        while i < n
            invariant
                0 <= i <= n,
                n == path.parts.len(),
                m == self.parts.len(),
                spec_match(self@, path@) == spec_match_from(self@, path@, i as int),
            decreases n - i,
        {
            if i >= m {
                return RouteMatch::NotMatch;
            }
            match &self.parts[i] {
                RoutePart::Wildcard => {
                    let excess = slice_from(path.parts.as_slice(), i);
                    assert(string_views(excess@) =~= path@.subrange(i as int, n as int));
                    return RouteMatch::Match { excess };
                },
                RoutePart::Part(r) => {
                    if *r != path.parts[i] {
                        return RouteMatch::NotMatch;
                    }
                },
            }
            i += 1;
        }
        let empty = slice_from(path.parts.as_slice(), n);
        assert(string_views(empty@) =~= path@.subrange(n as int, n as int));
        if i < m {
            match &self.parts[i] {
                RoutePart::Wildcard => RouteMatch::Match { excess: empty },
                RoutePart::Part(_) => RouteMatch::NotMatch,
            }
        } else {
            RouteMatch::Match { excess: empty }
        }
    }
}

/// The elements of `s` from index `i` on.
fn slice_from<T>(s: &[T], i: usize) -> (r: &[T])
    requires
        i <= s@.len(),
    ensures
        r@ == s@.subrange(i as int, s@.len() as int),
{
    &s[i..s.len()]
}

pub enum RouteMatch<'a> {
    NotMatch,
    Match { excess: &'a [String] },
}

/// Specific path type which does not allow wildcards.
pub struct Path {
    /// Only contains valid URI path components
    /// without any delimiters (e.g. `/`, `?`, `#`, etc.) or
    /// unescaped reserved URI characters.
    parts: Vec<String>,
}

impl View for Path {
    type V = Seq<Seq<char>>;

    closed spec fn view(&self) -> Seq<Seq<char>> {
        string_views(self.parts@)
    }
}

impl Path {
    /// Parses a request path; a path with a part that is not a valid path
    /// component is refused.
    pub fn new(path: &str) -> (res: Result<Self, RouteError>)
        ensures
            res is Ok <==> valid_path_text(path@),
            res matches Ok(p) ==> p@ == spec_path_parts(path@),
    {
        let cs = chars_of(path);
        let (lo, hi) = strip_slashes_bounds(&cs);
        let bounds = split_slash_bounds(&cs, lo, hi);
        let ghost pieces = split_slash(cs@.subrange(lo as int, hi as int));
        let mut parts: Vec<String> = Vec::new();
        let mut k: usize = 0;
        while k < bounds.len()
            invariant
                0 <= k <= bounds.len(),
                bounds.len() == pieces.len(),
                pieces == split_slash(strip_slashes(path@)),
                cs@ == path@,
                forall|j: int|
                    0 <= j < bounds.len() ==> {
                        &&& (#[trigger] bounds[j]).0 <= bounds[j].1 <= cs.len()
                        &&& cs@.subrange(bounds[j].0 as int, bounds[j].1 as int) == pieces[j]
                    },
                parts.len() == k,
                forall|j: int| 0 <= j < k ==> (#[trigger] parts[j])@ == pieces[j],
                forall|j: int| 0 <= j < k ==> valid_component(#[trigger] pieces[j]),
            decreases bounds.len() - k,
        {
            let (a, b) = bounds[k];
            if !component_valid(&cs, a, b) {
                assert(!valid_component(spec_path_parts(path@)[k as int]));
                return Err(RouteError::Invalid);
            }
            parts.push(string_of(&cs, a, b));
            k += 1;
        }
        let p = Path { parts };
        assert(p@ =~= spec_path_parts(path@));
        assert(valid_path_text(path@));
        Ok(p)
    }
}

/// Whether `a` is a prefix of `b`.
pub open spec fn is_prefix<A>(a: Seq<A>, b: Seq<A>) -> bool {
    a.len() <= b.len() && b.subrange(0, a.len() as int) == a
}

/// Whether some route of the table `m` begins with the parts `q`.
pub open spec fn node_exists<T>(m: Map<Seq<SpecRoutePart>, T>, q: Seq<SpecRoutePart>) -> bool {
    exists|key: Seq<SpecRoutePart>| #[trigger] m.contains_key(key) && is_prefix(q, key)
}

/// The first `i` parts of `path`, as literal route parts.
pub open spec fn path_prefix(path: Seq<Seq<char>>, i: int) -> Seq<SpecRoutePart> {
    path.subrange(0, i).map_values(|s: Seq<char>| SpecRoutePart::Part(s))
}

/// The value of the route `q` followed by a wildcard, if the table has it.
pub open spec fn wildcard_value<T>(m: Map<Seq<SpecRoutePart>, T>, q: Seq<SpecRoutePart>) -> Option<T> {
    if m.contains_key(q.push(SpecRoutePart::Wildcard)) {
        Some(m[q.push(SpecRoutePart::Wildcard)])
    } else {
        None
    }
}

/// Lookup of `path` in the table `m` once its first `i` parts have been
/// followed: a literal continuation that some route has is followed;
/// otherwise a wildcard route at this point takes the rest of the path.
/// At the end of the path the route equal to the path wins over the
/// wildcard route that extends it. There is no backtracking.
pub open spec fn spec_lookup_from<T>(m: Map<Seq<SpecRoutePart>, T>, path: Seq<Seq<char>>, i: int) -> Option<T>
    decreases path.len() - i,
{
    let q = path_prefix(path, i);
    if 0 <= i < path.len() {
        if node_exists(m, q.push(SpecRoutePart::Part(path[i]))) {
            spec_lookup_from(m, path, i + 1)
        } else {
            wildcard_value(m, q)
        }
    } else if m.contains_key(q) {
        Some(m[q])
    } else {
        wildcard_value(m, q)
    }
}

/// The value that the table `m` gives the request path `path`.
pub open spec fn spec_lookup<T>(m: Map<Seq<SpecRoutePart>, T>, path: Seq<Seq<char>>) -> Option<T> {
    spec_lookup_from(m, path, 0)
}

/// A node of the route tree: the handler of the route that ends here and the
/// children, each reached by one more route part.
pub struct Node<T> {
    handler: Option<T>,
    routes: Vec<(RoutePart, usize)>,
}

impl<T> Node<T> {
    /// The node has no handler and no children.
    pub closed spec fn is_vacant(&self) -> bool {
        self.handler is None && self.routes@.len() == 0
    }
}

impl<T> Default for Node<T> {
    fn default() -> (n: Self)
        ensures
            n.is_vacant(),
    {
        Node { handler: None, routes: Vec::new() }
    }
}

/// The edge `j` of node `k` leads to a node whose key is the key of `k`
/// followed by the edge's part.
pub closed spec fn edge_ok<T>(nodes: Seq<Node<T>>, keys: Seq<Seq<SpecRoutePart>>, k: int, j: int) -> bool {
    let e = nodes[k].routes@[j];
    &&& 0 <= e.1 < nodes.len()
    &&& keys[e.1 as int] == keys[k].push(e.0@)
}

/// Node `c` is the target of some edge.
pub closed spec fn has_parent<T>(nodes: Seq<Node<T>>, c: int) -> bool {
    exists|k: int, j: int|
        0 <= k < nodes.len() && 0 <= j < nodes[k].routes@.len() && (#[trigger] nodes[k].routes@[j]).1
            == c
}

/// The nodes form a tree rooted at node 0 whose node keys are the routes
/// spelled by the edges from the root.
pub closed spec fn shape_ok<T>(nodes: Seq<Node<T>>, keys: Seq<Seq<SpecRoutePart>>) -> bool {
    &&& nodes.len() == keys.len()
    &&& nodes.len() >= 1
    &&& keys[0] == Seq::<SpecRoutePart>::empty()
    &&& forall|k: int, j: int|
        #![trigger nodes[k].routes@[j]]
        0 <= k < nodes.len() && 0 <= j < nodes[k].routes@.len() ==> edge_ok(nodes, keys, k, j)
    &&& forall|a: int, b: int|
        0 <= a < keys.len() && 0 <= b < keys.len() && #[trigger] keys[a] == #[trigger] keys[b] ==> a
            == b
    &&& forall|c: int| 0 < c < nodes.len() ==> #[trigger] has_parent(nodes, c)
}

/// The handlers of the nodes are exactly the table `m`, and every node
/// other than the root lies on the way to some route of the table.
pub closed spec fn table_ok<T>(
    nodes: Seq<Node<T>>,
    keys: Seq<Seq<SpecRoutePart>>,
    m: Map<Seq<SpecRoutePart>, T>,
) -> bool {
    &&& forall|k: int|
        0 <= k < nodes.len() ==> ((#[trigger] nodes[k]).handler is Some <==> m.contains_key(keys[k]))
    &&& forall|k: int|
        0 <= k < nodes.len() ==> ((#[trigger] nodes[k]).handler matches Some(v) ==> m[keys[k]] == v)
    &&& forall|key: Seq<SpecRoutePart>|
        #[trigger] m.contains_key(key) ==> exists|k: int| 0 <= k < keys.len() && keys[k] == key
    &&& forall|k: int| 0 < k < nodes.len() ==> node_exists(m, #[trigger] keys[k])
}

/// If a node has the key of node `k` followed by `p`, node `k` has an edge
/// labelled `p` that leads to it.
proof fn lemma_edge_to<T>(nodes: Seq<Node<T>>, keys: Seq<Seq<SpecRoutePart>>, k: int, c: int, p: SpecRoutePart)
    requires
        shape_ok(nodes, keys),
        0 <= k < nodes.len(),
        0 <= c < nodes.len(),
        keys[c] == keys[k].push(p),
    ensures
        exists|j: int|
            0 <= j < nodes[k].routes@.len() && (#[trigger] nodes[k].routes@[j]).1 == c
                && nodes[k].routes@[j].0@ == p,
{
    assert(keys[c].len() > 0);
    assert(c != 0);
    assert(has_parent(nodes, c));
    let (k2, j2) = choose|k2: int, j2: int|
        0 <= k2 < nodes.len() && 0 <= j2 < nodes[k2].routes@.len() && (#[trigger] nodes[k2].routes@[
            j2
        ]).1 == c;
    assert(edge_ok(nodes, keys, k2, j2));
    let q = nodes[k2].routes@[j2].0@;
    assert(keys[k2] =~= keys[c].drop_last());
    assert(keys[k] =~= keys[c].drop_last());
    assert(keys[k2] == keys[k]);
    assert(k2 == k);
    assert(q == keys[c].last());
}

/// Every prefix of a node's key is the key of some node.
proof fn lemma_prefix_node<T>(nodes: Seq<Node<T>>, keys: Seq<Seq<SpecRoutePart>>, c: int, n: int)
    requires
        shape_ok(nodes, keys),
        0 <= c < nodes.len(),
        0 <= n <= keys[c].len(),
    ensures
        exists|k: int| 0 <= k < nodes.len() && #[trigger] keys[k] == keys[c].subrange(0, n),
    decreases keys[c].len() - n,
{
    if n == keys[c].len() {
        assert(keys[c].subrange(0, n) =~= keys[c]);
    } else {
        assert(keys[c].len() > 0);
        assert(c != 0);
        assert(has_parent(nodes, c));
        let (k2, j2) = choose|k2: int, j2: int|
            0 <= k2 < nodes.len() && 0 <= j2 < nodes[k2].routes@.len() && (#[trigger] nodes[k2].routes@[
                j2
            ]).1 == c;
        assert(edge_ok(nodes, keys, k2, j2));
        assert(keys[k2].len() + 1 == keys[c].len());
        lemma_prefix_node(nodes, keys, k2, n);
        assert(keys[k2].subrange(0, n) =~= keys[c].subrange(0, n));
    }
}

/// A nonempty route is the key of a node exactly when some route of the
/// table begins with it.
proof fn lemma_node_iff<T>(
    nodes: Seq<Node<T>>,
    keys: Seq<Seq<SpecRoutePart>>,
    m: Map<Seq<SpecRoutePart>, T>,
    q: Seq<SpecRoutePart>,
)
    requires
        shape_ok(nodes, keys),
        table_ok(nodes, keys, m),
        q.len() > 0,
    ensures
        (exists|k: int| 0 <= k < nodes.len() && #[trigger] keys[k] == q) <==> node_exists(m, q),
{
    if exists|k: int| 0 <= k < nodes.len() && #[trigger] keys[k] == q {
        let k = choose|k: int| 0 <= k < nodes.len() && #[trigger] keys[k] == q;
        assert(k != 0);
        assert(node_exists(m, keys[k]));
    }
    if node_exists(m, q) {
        let key = choose|key: Seq<SpecRoutePart>| #[trigger] m.contains_key(key) && is_prefix(q, key);
        let c = choose|c: int| 0 <= c < keys.len() && keys[c] == key;
        lemma_prefix_node(nodes, keys, c, q.len() as int);
    }
}

/// The edge of `nodes[k]` labelled `part`, if there is one.
fn find_child<T>(nodes: &Vec<Node<T>>, Ghost(keys): Ghost<Seq<Seq<SpecRoutePart>>>, k: usize, part: &RoutePart) -> (res: Option<usize>)
    requires
        shape_ok(nodes@, keys),
        k < nodes.len(),
    ensures
        res matches Some(c) ==> c < nodes.len() && keys[c as int] == keys[k as int].push(part@),
        res is None ==> forall|c: int| 0 <= c < nodes.len() ==> keys[c] != keys[k as int].push(part@),
{
    let routes = &nodes[k].routes;
    let mut j: usize = 0;
    while j < routes.len()
        invariant
            0 <= j <= routes.len(),
            shape_ok(nodes@, keys),
            k < nodes.len(),
            routes@ == nodes@[k as int].routes@,
            forall|i: int| 0 <= i < j ==> (#[trigger] routes@[i]).0@ != part@,
        decreases routes.len() - j,
    {
        if routes[j].0.same(part) {
            assert(nodes@[k as int].routes@[j as int] == routes@[j as int]);
            assert(edge_ok(nodes@, keys, k as int, j as int));
            return Some(routes[j].1);
        }
        j += 1;
    }
    proof {
        assert forall|c: int| 0 <= c < nodes.len() implies keys[c] != keys[k as int].push(part@) by {
            if keys[c] == keys[k as int].push(part@) {
                lemma_edge_to(nodes@, keys, k as int, c, part@);
            }
        }
    }
    None
}

/// The edge of `nodes[k]` labelled with the literal `name`, if there is one.
fn find_literal_child<T>(nodes: &Vec<Node<T>>, Ghost(keys): Ghost<Seq<Seq<SpecRoutePart>>>, k: usize, name: &String) -> (res: Option<usize>)
    requires
        shape_ok(nodes@, keys),
        k < nodes.len(),
    ensures
        res matches Some(c) ==> c < nodes.len() && keys[c as int] == keys[k as int].push(SpecRoutePart::Part(name@)),
        res is None ==> forall|c: int| 0 <= c < nodes.len() ==> keys[c] != keys[k as int].push(SpecRoutePart::Part(name@)),
{
    let routes = &nodes[k].routes;
    let mut j: usize = 0;
    while j < routes.len()
        invariant
            0 <= j <= routes.len(),
            shape_ok(nodes@, keys),
            k < nodes.len(),
            routes@ == nodes@[k as int].routes@,
            forall|i: int| 0 <= i < j ==> (#[trigger] routes@[i]).0@ != SpecRoutePart::Part(name@),
        decreases routes.len() - j,
    {
        if routes[j].0.is_literal(name) {
            assert(nodes@[k as int].routes@[j as int] == routes@[j as int]);
            assert(edge_ok(nodes@, keys, k as int, j as int));
            return Some(routes[j].1);
        }
        j += 1;
    }
    proof {
        assert forall|c: int| 0 <= c < nodes.len() implies keys[c] != keys[k as int].push(SpecRoutePart::Part(name@)) by {
            if keys[c] == keys[k as int].push(SpecRoutePart::Part(name@)) {
                lemma_edge_to(nodes@, keys, k as int, c, SpecRoutePart::Part(name@));
            }
        }
    }
    None
}

/// Efficiently maps [`Route`]s to a generic value. Mainly
/// used to store HTTP route handlers.
///
/// The routes form a tree: node 0 is the root, and the key of a node is the
/// route spelled by the edges from the root to it.
pub struct Routes<T> {
    nodes: Vec<Node<T>>,
    keys: Ghost<Seq<Seq<SpecRoutePart>>>,
    table: Ghost<Map<Seq<SpecRoutePart>, T>>,
}

impl<T> View for Routes<T> {
    type V = Map<Seq<SpecRoutePart>, T>;

    closed spec fn view(&self) -> Map<Seq<SpecRoutePart>, T> {
        self.table@
    }
}

impl<T> Routes<T> {
    #[verifier::type_invariant]
    closed spec fn wf(&self) -> bool {
        &&& shape_ok(self.nodes@, self.keys@)
        &&& table_ok(self.nodes@, self.keys@, self.table@)
    }

    pub fn new() -> (r: Self)
        ensures
            r@ == Map::<Seq<SpecRoutePart>, T>::empty(),
    {
        let mut nodes: Vec<Node<T>> = Vec::new();
        nodes.push(Node::default());
        let r = Routes {
            nodes,
            keys: Ghost(Seq::<Seq<SpecRoutePart>>::empty().push(Seq::<SpecRoutePart>::empty())),
            table: Ghost(Map::empty()),
        };
        r
    }

    /// Inserts value at the provided route. Returns the old value if it existed.
    pub fn insert(&mut self, route: Route, value: T) -> (prev: Option<T>)
        ensures
            final(self)@ == old(self)@.insert(route@, value),
            prev == (if old(self)@.contains_key(route@) {
                Some(old(self)@[route@])
            } else {
                None
            }),
    {
        proof {
            use_type_invariant(&*self);
        }
        let mut tmp = Routes::new();
        std::mem::swap(self, &mut tmp);
        let Routes { mut nodes, keys, table } = tmp;
        let ghost old_table = table@;
        let ghost mut gkeys = keys@;
        let ghost r = route@;
        let n = route.parts.len();
        let mut current: usize = 0;
        let mut i: usize = 0;
        assert(r.subrange(0, 0) =~= Seq::<SpecRoutePart>::empty());
        while i < n
            invariant
                0 <= i <= n,
                n == route.parts.len(),
                r == route@,
                r.len() == n,
                shape_ok(nodes@, gkeys),
                current < nodes.len(),
                gkeys[current as int] == r.subrange(0, i as int),
                forall|k: int|
                    0 <= k < nodes.len() ==> ((#[trigger] nodes@[k]).handler is Some
                        <==> old_table.contains_key(gkeys[k])),
                forall|k: int|
                    0 <= k < nodes.len() ==> ((#[trigger] nodes@[k]).handler matches Some(v)
                        ==> old_table[gkeys[k]] == v),
                forall|key: Seq<SpecRoutePart>|
                    #[trigger] old_table.contains_key(key) ==> exists|k: int|
                        0 <= k < gkeys.len() && gkeys[k] == key,
                forall|k: int|
                    0 < k < nodes.len() ==> node_exists(old_table, #[trigger] gkeys[k]) || is_prefix(
                        gkeys[k],
                        r,
                    ),
            decreases n - i,
        {
            let part = &route.parts[i];
            assert(r[i as int] == part@);
            assert(r.subrange(0, i + 1) =~= r.subrange(0, i as int).push(part@));
            match find_child(&nodes, Ghost(gkeys), current, part) {
                Some(c) => {
                    current = c;
                },
                None => {
                    let ghost old_nodes = nodes@;
                    let ghost old_keys = gkeys;
                    let ghost new_key = gkeys[current as int].push(part@);
                    let fresh = nodes.len();
                    nodes.push(Node::default());
                    proof {
                        gkeys = gkeys.push(new_key);
                    }
                    nodes[current].routes.push((part.duplicate(), fresh));
                    proof {
                        let nn = nodes@;
                        assert(nn.len() == old_nodes.len() + 1);
                        assert forall|k: int, j: int|
                            #![trigger nn[k].routes@[j]]
                            0 <= k < nn.len() && 0 <= j < nn[k].routes@.len() implies edge_ok(
                            nn,
                            gkeys,
                            k,
                            j,
                        ) by {
                            if k == current as int && j == nn[k].routes@.len() - 1 {
                            } else {
                                assert(nn[k].routes@[j] == old_nodes[k].routes@[j]);
                                assert(edge_ok(old_nodes, old_keys, k, j));
                            }
                        }
                        assert forall|a: int, b: int|
                            0 <= a < gkeys.len() && 0 <= b < gkeys.len() && #[trigger] gkeys[a]
                                == #[trigger] gkeys[b] implies a == b by {
                            if a < old_keys.len() && b < old_keys.len() {
                                assert(old_keys[a] == gkeys[a]);
                                assert(old_keys[b] == gkeys[b]);
                            }
                        }
                        assert forall|c: int| 0 < c < nn.len() implies #[trigger] has_parent(
                            nn,
                            c,
                        ) by {
                            if c == fresh as int {
                                let j = nn[current as int].routes@.len() - 1;
                                assert(nn[current as int].routes@[j].1 == c);
                            } else {
                                assert(has_parent(old_nodes, c));
                                let (k2, j2) = choose|k2: int, j2: int|
                                    0 <= k2 < old_nodes.len() && 0 <= j2
                                        < old_nodes[k2].routes@.len() && (
                                    #[trigger] old_nodes[k2].routes@[j2]).1 == c;
                                assert(nn[k2].routes@[j2] == old_nodes[k2].routes@[j2]);
                            }
                        }
                        assert(shape_ok(nn, gkeys));
                        assert forall|k: int| 0 <= k < nn.len() implies ((#[trigger] nn[k]).handler is Some
                            <==> old_table.contains_key(gkeys[k])) && (nn[k].handler matches Some(v)
                            ==> old_table[gkeys[k]] == v) by {
                            if k < old_nodes.len() {
                                assert(nn[k].handler == old_nodes[k].handler);
                                assert(old_nodes[k].handler is Some <==> old_table.contains_key(old_keys[k]));
                            } else {
                                if old_table.contains_key(new_key) {
                                    let k3 = choose|k3: int| 0 <= k3 < old_keys.len() && old_keys[k3] == new_key;
                                    assert(old_keys[k3] == gkeys[k3]);
                                }
                            }
                        }
                        assert forall|key: Seq<SpecRoutePart>|
                            #[trigger] old_table.contains_key(key) implies exists|k: int|
                                0 <= k < gkeys.len() && gkeys[k] == key by {
                            let k3 = choose|k3: int| 0 <= k3 < old_keys.len() && old_keys[k3] == key;
                            assert(gkeys[k3] == key);
                        }
                        assert forall|k: int| 0 < k < nn.len() implies node_exists(old_table, #[trigger] gkeys[k]) || is_prefix(gkeys[k], r) by {
                            if k < old_nodes.len() {
                                assert(gkeys[k] == old_keys[k]);
                            } else {
                                assert(gkeys[k] == r.subrange(0, i + 1));
                                assert(r.subrange(0, i + 1).len() <= r.len());
                                assert(r.subrange(0, (i + 1) as int) =~= r.subrange(0, gkeys[k].len() as int));
                            }
                        }
                    }
                    current = fresh;
                },
            }
            i += 1;
        }
        assert(r.subrange(0, n as int) =~= r);
        let ghost before = nodes@;
        let prev = nodes[current].handler.take();
        nodes[current].handler = Some(value);
        let ghost new_table = old_table.insert(r, value);
        proof {
            let nn = nodes@;
            assert forall|k: int, j: int|
                #![trigger nn[k].routes@[j]]
                0 <= k < nn.len() && 0 <= j < nn[k].routes@.len() implies edge_ok(nn, gkeys, k, j) by {
                assert(nn[k].routes@[j] == before[k].routes@[j]);
                assert(edge_ok(before, gkeys, k, j));
            }
            assert forall|c: int| 0 < c < nn.len() implies #[trigger] has_parent(nn, c) by {
                assert(has_parent(before, c));
                let (k2, j2) = choose|k2: int, j2: int|
                    0 <= k2 < before.len() && 0 <= j2 < before[k2].routes@.len() && (
                    #[trigger] before[k2].routes@[j2]).1 == c;
                assert(nn[k2].routes@[j2] == before[k2].routes@[j2]);
            }
            assert(shape_ok(nn, gkeys));
            assert forall|k: int| 0 <= k < nn.len() implies ((#[trigger] nn[k]).handler is Some
                <==> new_table.contains_key(gkeys[k])) && (nn[k].handler matches Some(v)
                ==> new_table[gkeys[k]] == v) by {
                if k != current as int {
                    assert(nn[k].handler == before[k].handler);
                    assert(gkeys[k] != gkeys[current as int]);
                }
            }
            assert forall|key: Seq<SpecRoutePart>|
                #[trigger] new_table.contains_key(key) implies exists|k: int|
                    0 <= k < gkeys.len() && gkeys[k] == key by {
                if key != r {
                    assert(old_table.contains_key(key));
                }
            }
            assert forall|k: int| 0 < k < nn.len() implies node_exists(new_table, #[trigger] gkeys[k]) by {
                if node_exists(old_table, gkeys[k]) {
                    let key = choose|key: Seq<SpecRoutePart>| #[trigger] old_table.contains_key(key) && is_prefix(gkeys[k], key);
                    assert(new_table.contains_key(key));
                } else {
                    assert(new_table.contains_key(r));
                }
            }
            assert(table_ok(nn, gkeys, new_table));
        }
        *self = Routes { nodes, keys: Ghost(gkeys), table: Ghost(new_table) };
        prev
    }

    /// Gets the value at the provided route if it exists.
    pub fn get<'a>(&'a self, route: &Route) -> (res: Option<&'a T>)
        ensures
            match res {
                Some(v) => self@.contains_key(route@) && *v == self@[route@],
                None => !self@.contains_key(route@),
            },
    {
        proof {
            use_type_invariant(self);
        }
        let ghost r = route@;
        let n = route.parts.len();
        let mut current: usize = 0;
        let mut i: usize = 0;
        assert(r.subrange(0, 0) =~= Seq::<SpecRoutePart>::empty());
        while i < n
            invariant
                0 <= i <= n,
                n == route.parts.len(),
                r == route@,
                r.len() == n,
                self.wf(),
                current < self.nodes.len(),
                self.keys@[current as int] == r.subrange(0, i as int),
            decreases n - i,
        {
            let part = &route.parts[i];
            assert(r[i as int] == part@);
            assert(r.subrange(0, i + 1) =~= r.subrange(0, i as int).push(part@));
            match find_child(&self.nodes, self.keys, current, part) {
                Some(c) => {
                    current = c;
                },
                None => {
                    proof {
                        if self.table@.contains_key(r) {
                            let c = choose|c: int| 0 <= c < self.keys@.len() && self.keys@[c] == r;
                            lemma_prefix_node(self.nodes@, self.keys@, c, i + 1);
                        }
                    }
                    return None;
                },
            }
            i += 1;
        }
        assert(r.subrange(0, n as int) =~= r);
        assert(self.nodes@[current as int].handler is Some <==> self.table@.contains_key(r));
        self.nodes[current].handler.as_ref()
    }
}

impl<T> Router<T> for Routes<T> {
    fn match_path<'a>(&'a self, path: &Path) -> (res: Option<&'a T>)
        ensures
            match spec_lookup(self@, path@) {
                Some(v) => res matches Some(r) && *r == v,
                None => res is None,
            },
    {
        proof {
            use_type_invariant(self);
        }
        let ghost p = path@;
        let ghost m = self.table@;
        let n = path.parts.len();
        let mut current: usize = 0;
        let mut i: usize = 0;
        assert(path_prefix(p, 0) =~= Seq::<SpecRoutePart>::empty());
        while i < n
            invariant
                0 <= i <= n,
                n == path.parts.len(),
                p == path@,
                p.len() == n,
                m == self.table@,
                self.wf(),
                current < self.nodes.len(),
                self.keys@[current as int] == path_prefix(p, i as int),
                spec_lookup(m, p) == spec_lookup_from(m, p, i as int),
            decreases n - i,
        {
            let ghost q = path_prefix(p, i as int);
            assert(p[i as int] == path.parts@[i as int]@);
            assert(path_prefix(p, i + 1) =~= q.push(SpecRoutePart::Part(p[i as int])));
            proof {
                lemma_node_iff(self.nodes@, self.keys@, m, q.push(SpecRoutePart::Part(p[i as int])));
            }
            match find_literal_child(&self.nodes, self.keys, current, &path.parts[i]) {
                Some(c) => {
                    current = c;
                },
                None => {
                    return self.wildcard_handler(current);
                },
            }
            i += 1;
        }
        if self.nodes[current].handler.is_some() {
            self.nodes[current].handler.as_ref()
        } else {
            self.wildcard_handler(current)
        }
    }
}

impl<T> Routes<T> {
    /// The handler of the wildcard route that extends the key of node `k`.
    fn wildcard_handler<'a>(&'a self, k: usize) -> (res: Option<&'a T>)
        requires
            self.wf(),
            k < self.nodes.len(),
        ensures
            match wildcard_value(self.table@, self.keys@[k as int]) {
                Some(v) => res matches Some(r) && *r == v,
                None => res is None,
            },
    {
        let ghost w = self.keys@[k as int].push(SpecRoutePart::Wildcard);
        match find_child(&self.nodes, self.keys, k, &RoutePart::Wildcard) {
            Some(c) => {
                assert(self.nodes@[c as int].handler is Some <==> self.table@.contains_key(w));
                self.nodes[c].handler.as_ref()
            },
            None => {
                proof {
                    if self.table@.contains_key(w) {
                        let c = choose|c: int| 0 <= c < self.keys@.len() && self.keys@[c] == w;
                    }
                }
                None
            },
        }
    }
}

pub trait Router<T> {
    /// Attempts to match the path against registered routes.
    ///
    /// Any given path can match, at most, one route.
    fn match_path<'a>(&'a self, path: &Path) -> Option<&'a T>;
}

impl<T> Default for Routes<T> {
    fn default() -> (r: Self)
        ensures
            r@ == Map::<Seq<SpecRoutePart>, T>::empty(),
    {
        Self::new()
    }
}

} // verus!

verus! {

/// A route whose parts `i..j` are the literal parts `i..j` of the path is
/// matched from `j` as it is matched from `i`.
proof fn lemma_match_skip(route: Seq<SpecRoutePart>, path: Seq<Seq<char>>, i: int, j: int)
    requires
        0 <= i <= j <= path.len(),
        j <= route.len(),
        forall|t: int| i <= t < j ==> route[t] == SpecRoutePart::Part(path[t]),
    ensures
        spec_match_from(route, path, i) == spec_match_from(route, path, j),
    decreases j - i,
{
    if i < j {
        lemma_match_skip(route, path, i + 1, j);
    }
}

/// The literal prefix of `path` up to `i` agrees with the path's parts.
proof fn lemma_path_prefix(path: Seq<Seq<char>>, i: int)
    requires
        0 <= i <= path.len(),
    ensures
        path_prefix(path, i).len() == i,
        forall|t: int| 0 <= t < i ==> #[trigger] path_prefix(path, i)[t] == SpecRoutePart::Part(path[t]),
{
}

proof fn lemma_lookup_from_sound<T>(m: Map<Seq<SpecRoutePart>, T>, path: Seq<Seq<char>>, i: int)
    requires
        0 <= i <= path.len(),
    ensures
        spec_lookup_from(m, path, i) matches Some(v) ==> exists|route: Seq<SpecRoutePart>|
            #[trigger] m.contains_key(route) && m[route] == v && spec_match(route, path) is Some,
    decreases path.len() - i,
{
    let q = path_prefix(path, i);
    lemma_path_prefix(path, i);
    let w = q.push(SpecRoutePart::Wildcard);
    if i < path.len() && node_exists(m, q.push(SpecRoutePart::Part(path[i]))) {
        lemma_lookup_from_sound(m, path, i + 1);
    } else {
        if m.contains_key(w) && spec_lookup_from(m, path, i) == Some(m[w]) {
            lemma_match_skip(w, path, 0, i);
            assert(w[i] == SpecRoutePart::Wildcard);
            assert(spec_match(w, path) is Some);
        }
        if i == path.len() && m.contains_key(q) {
            lemma_match_skip(q, path, 0, i);
            assert(spec_match(q, path) is Some);
        }
    }
}

/// Soundness of lookup: a value that the table gives a path is the value
/// of a route in the table that matches the path in the sense of
/// [`Route::matches`].
pub proof fn law_lookup_sound<T>(m: Map<Seq<SpecRoutePart>, T>, path: Seq<Seq<char>>)
    ensures
        spec_lookup(m, path) matches Some(v) ==> exists|route: Seq<SpecRoutePart>|
            #[trigger] m.contains_key(route) && m[route] == v && spec_match(route, path) is Some,
{
    lemma_lookup_from_sound(m, path, 0);
}

proof fn lemma_exact_from<T>(m: Map<Seq<SpecRoutePart>, T>, path: Seq<Seq<char>>, i: int)
    requires
        0 <= i <= path.len(),
        m.contains_key(path_prefix(path, path.len() as int)),
    ensures
        spec_lookup_from(m, path, i) == Some(m[path_prefix(path, path.len() as int)]),
    decreases path.len() - i,
{
    let key = path_prefix(path, path.len() as int);
    if i < path.len() {
        let next = path_prefix(path, i).push(SpecRoutePart::Part(path[i]));
        assert(key.subrange(0, i + 1) =~= next);
        assert(is_prefix(next, key));
        assert(node_exists(m, next));
        lemma_exact_from(m, path, i + 1);
    }
}

proof fn lemma_wildcard_reached_from<T>(m: Map<Seq<SpecRoutePart>, T>, path: Seq<Seq<char>>, i: int, j: int)
    requires
        0 <= j <= i <= path.len(),
        m.contains_key(path_prefix(path, i).push(SpecRoutePart::Wildcard)),
        i < path.len() ==> !node_exists(m, path_prefix(path, i + 1)),
        i == path.len() ==> !m.contains_key(path_prefix(path, i)),
    ensures
        spec_lookup_from(m, path, j) == Some(m[path_prefix(path, i).push(SpecRoutePart::Wildcard)]),
    decreases i - j,
{
    let key = path_prefix(path, i).push(SpecRoutePart::Wildcard);
    if j < i {
        let next = path_prefix(path, j).push(SpecRoutePart::Part(path[j]));
        assert(key.subrange(0, j + 1) =~= next);
        assert(is_prefix(next, key));
        assert(node_exists(m, next));
        lemma_wildcard_reached_from(m, path, i, j + 1);
    } else if i < path.len() {
        assert(path_prefix(path, i).push(SpecRoutePart::Part(path[i])) =~= path_prefix(path, i + 1));
    }
}

/// Completeness of lookup for wildcard routes: when the table holds the
/// route made of the first `i` parts of the path followed by a wildcard
/// (`i` may be 0, a catch-all route), and no route continues the path
/// literally past those `i` parts (at the end of the path: no route equals
/// the path), the path finds that wildcard route's value.
pub proof fn law_wildcard_route_reached<T>(m: Map<Seq<SpecRoutePart>, T>, path: Seq<Seq<char>>, i: int)
    requires
        0 <= i <= path.len(),
        m.contains_key(path_prefix(path, i).push(SpecRoutePart::Wildcard)),
        i < path.len() ==> !node_exists(m, path_prefix(path, i + 1)),
        i == path.len() ==> !m.contains_key(path_prefix(path, i)),
    ensures
        spec_lookup(m, path) == Some(m[path_prefix(path, i).push(SpecRoutePart::Wildcard)]),
{
    lemma_wildcard_reached_from(m, path, i, 0);
}

/// A table holding only the catch-all route `*` gives its value to every
/// request path.
pub proof fn law_catch_all_route<T>(v: T, path: Seq<Seq<char>>)
    ensures
        spec_lookup(Map::<Seq<SpecRoutePart>, T>::empty().insert(seq![SpecRoutePart::Wildcard], v), path)
            == Some(v),
{
    let m = Map::<Seq<SpecRoutePart>, T>::empty().insert(seq![SpecRoutePart::Wildcard], v);
    assert(path_prefix(path, 0).push(SpecRoutePart::Wildcard) =~= seq![SpecRoutePart::Wildcard]);
    if path.len() > 0 {
        if node_exists(m, path_prefix(path, 1)) {
            let key = choose|key: Seq<SpecRoutePart>| #[trigger] m.contains_key(key) && is_prefix(path_prefix(path, 1), key);
            assert(key == seq![SpecRoutePart::Wildcard]);
            assert(key.subrange(0, 1)[0] == path_prefix(path, 1)[0]);
        }
    } else {
        assert(path_prefix(path, 0) =~= Seq::<SpecRoutePart>::empty());
        assert(!m.contains_key(path_prefix(path, 0)));
    }
    law_wildcard_route_reached(m, path, 0);
}

/// A route made of exactly the parts of the path, as literals, is the one
/// that the path finds, whatever wildcard routes the table also holds.
pub proof fn law_exact_route_wins<T>(m: Map<Seq<SpecRoutePart>, T>, path: Seq<Seq<char>>)
    requires
        m.contains_key(path_prefix(path, path.len() as int)),
    ensures
        spec_lookup(m, path) == Some(m[path_prefix(path, path.len() as int)]),
{
    lemma_exact_from(m, path, 0);
}

/// What a lookup of a route gives back after an insert: the inserted value
/// at the inserted route, the earlier value at every other route.
pub proof fn law_get_after_insert<T>(
    m: Map<Seq<SpecRoutePart>, T>,
    route: Seq<SpecRoutePart>,
    value: T,
    other: Seq<SpecRoutePart>,
)
    ensures
        m.insert(route, value).contains_key(route),
        m.insert(route, value)[route] == value,
        other != route ==> (m.insert(route, value).contains_key(other) == m.contains_key(other)),
        other != route && m.contains_key(other) ==> m.insert(route, value)[other] == m[other],
{
}

/// One leading and one trailing `/` do not change a route or a path.
pub proof fn law_outer_slashes_ignored(s: Seq<char>)
    requires
        s.len() > 0 ==> s[0] != '/' && s.last() != '/',
    ensures
        spec_route_parts(seq!['/'] + s) == spec_route_parts(s),
        spec_route_parts(s + seq!['/']) == spec_route_parts(s),
        spec_route_parts(seq!['/'] + s + seq!['/']) == spec_route_parts(s),
        spec_path_parts(seq!['/'] + s) == spec_path_parts(s),
        spec_path_parts(s + seq!['/']) == spec_path_parts(s),
        spec_path_parts(seq!['/'] + s + seq!['/']) == spec_path_parts(s),
{
    let a = seq!['/'] + s;
    let b = s + seq!['/'];
    let c = seq!['/'] + s + seq!['/'];
    assert(strip_slashes(s) =~= s);
    assert(a.drop_first() =~= s);
    assert(strip_slashes(a) =~= s);
    assert(b.drop_last() =~= s);
    assert(strip_slashes(b) =~= s);
    assert(c.drop_last() =~= a);
    assert(strip_slashes(c) =~= s);
}

} // verus!

verus! {

/// The route text `s` has no part padded with white space.
pub open spec fn unpadded_route_text(s: Seq<char>) -> bool {
    forall|i: int|
        0 <= i < split_slash(strip_slashes(s)).len() ==> trim(#[trigger] split_slash(strip_slashes(s))[i])
            == split_slash(strip_slashes(s))[i]
}

/// The route text `s` has no padded part and no wildcard part.
pub open spec fn literal_route_text(s: Seq<char>) -> bool {
    &&& unpadded_route_text(s)
    &&& forall|i: int|
        0 <= i < split_slash(strip_slashes(s)).len() ==> #[trigger] split_slash(strip_slashes(s))[i]
            != seq!['*']
}

proof fn lemma_own_path_from(s: Seq<char>, i: int)
    requires
        unpadded_route_text(s),
        0 <= i <= spec_path_parts(s).len(),
    ensures
        spec_match_from(spec_route_parts(s), spec_path_parts(s), i) is Some,
    decreases spec_path_parts(s).len() - i,
{
    let pieces = split_slash(strip_slashes(s));
    let route = spec_route_parts(s);
    if i < pieces.len() {
        assert(trim(pieces[i]) == pieces[i]);
        assert(route[i] == spec_route_part(pieces[i]));
        lemma_own_path_from(s, i + 1);
    }
}

/// A route matches the request path written with the same text, when no
/// part of the text is padded with white space.
pub proof fn law_route_matches_own_path(s: Seq<char>)
    requires
        unpadded_route_text(s),
    ensures
        spec_match(spec_route_parts(s), spec_path_parts(s)) is Some,
{
    lemma_own_path_from(s, 0);
}

/// A route without wildcards or padding is the literal form of the path
/// written with the same text.
pub proof fn lemma_literal_route_is_path(s: Seq<char>)
    requires
        literal_route_text(s),
    ensures
        spec_route_parts(s) == path_prefix(spec_path_parts(s), spec_path_parts(s).len() as int),
{
    let pieces = split_slash(strip_slashes(s));
    assert forall|i: int| 0 <= i < pieces.len() implies spec_route_parts(s)[i] == path_prefix(
        pieces,
        pieces.len() as int,
    )[i] by {
        assert(trim(pieces[i]) == pieces[i]);
        assert(pieces[i] != seq!['*']);
    }
    assert(spec_route_parts(s) =~= path_prefix(pieces, pieces.len() as int));
}

/// A request path written with the text of a route in the table, when the
/// route has no wildcard and no padded part, finds that route's value.
pub proof fn law_literal_route_reached<T>(m: Map<Seq<SpecRoutePart>, T>, s: Seq<char>)
    requires
        literal_route_text(s),
        m.contains_key(spec_route_parts(s)),
    ensures
        spec_lookup(m, spec_path_parts(s)) == Some(m[spec_route_parts(s)]),
{
    lemma_literal_route_is_path(s);
    law_exact_route_wins(m, spec_path_parts(s));
}

} // verus!

verus! {

/// The first `n` parts of `route` are the literal parts `0..n` of `path`.
pub open spec fn agrees_up_to(route: Seq<SpecRoutePart>, path: Seq<Seq<char>>, n: int) -> bool {
    forall|t: int| 0 <= t < n ==> #[trigger] route[t] == SpecRoutePart::Part(path[t])
}

proof fn lemma_match_from_shape(route: Seq<SpecRoutePart>, path: Seq<Seq<char>>, i: int)
    requires
        0 <= i <= path.len(),
        i <= route.len(),
        agrees_up_to(route, path, i),
    ensures
        spec_match_from(route, path, i) matches Some(k) ==> {
            &&& i <= k <= path.len()
            &&& agrees_up_to(route, path, k)
            &&& (k < route.len() && route[k] == SpecRoutePart::Wildcard) || (k == path.len()
                && k == route.len())
        },
    decreases path.len() - i,
{
    if i < path.len() && i < route.len() {
        if let SpecRoutePart::Part(r) = route[i] {
            if r == path[i] {
                assert(agrees_up_to(route, path, i + 1));
                lemma_match_from_shape(route, path, i + 1);
            }
        }
    }
}

/// What matching means: a route matches a path exactly when its parts up to
/// its first wildcard are the path's parts at the same places and the
/// wildcard comes no later than the end of the path, the wildcard then
/// taking the rest of the path (possibly nothing); a route without a
/// wildcard matches only the path of the same parts.
pub proof fn law_match_characterized(route: Seq<SpecRoutePart>, path: Seq<Seq<char>>)
    ensures
        spec_match(route, path) matches Some(k) ==> {
            &&& 0 <= k <= path.len()
            &&& agrees_up_to(route, path, k)
            &&& (k < route.len() && route[k] == SpecRoutePart::Wildcard) || (k == path.len()
                && k == route.len())
        },
        forall|w: int|
            0 <= w <= path.len() && w < route.len() && route[w] == SpecRoutePart::Wildcard
                && #[trigger] agrees_up_to(route, path, w) ==> spec_match(route, path) == Some(w),
        route.len() == path.len() && agrees_up_to(route, path, path.len() as int) ==> spec_match(
            route,
            path,
        ) == Some(path.len() as int),
{
    lemma_match_from_shape(route, path, 0);
    assert forall|w: int|
        0 <= w <= path.len() && w < route.len() && route[w] == SpecRoutePart::Wildcard
            && #[trigger] agrees_up_to(route, path, w) implies spec_match(route, path) == Some(w) by {
        lemma_match_skip(route, path, 0, w);
    }
    if route.len() == path.len() && agrees_up_to(route, path, path.len() as int) {
        lemma_match_skip(route, path, 0, path.len() as int);
    }
}

/// Whether `c` is an ASCII letter, an ASCII digit, `-`, `.`, `_` or `~`,
/// told by its code point.
pub open spec fn plain_uri_char(c: char) -> bool {
    let n = c as u32;
    (0x41 <= n && n <= 0x5a) || (0x61 <= n && n <= 0x7a) || (0x30 <= n && n <= 0x39) || n == 0x2d
        || n == 0x2e || n == 0x5f || n == 0x7e
}

/// Whether `c` is a hexadecimal digit, told by its code point.
pub open spec fn hex_uri_char(c: char) -> bool {
    let n = c as u32;
    (0x30 <= n && n <= 0x39) || (0x41 <= n && n <= 0x46) || (0x61 <= n && n <= 0x66)
}

proof fn lemma_plain_char(c: char)
    ensures
        plain_uri_char(c) ==> is_unreserved(c),
        hex_uri_char(c) ==> is_hex_digit(c),
{
}

/// Every text made of ASCII letters, digits, `-`, `.`, `_`, `~` and percent
/// escapes (`%` and two hexadecimal digits) is a valid path component.
pub proof fn law_unreserved_text_is_component(s: Seq<char>)
    requires
        forall|i: int|
            0 <= i < s.len() ==> plain_uri_char(#[trigger] s[i]) || (s[i] == '%' && i + 2 < s.len()
                && hex_uri_char(s[i + 1]) && hex_uri_char(s[i + 2])),
    ensures
        valid_component(s),
{
    assert forall|i: int| 0 <= i < s.len() implies #[trigger] component_char_ok(s, i) by {
        lemma_plain_char(s[i]);
        if i + 2 < s.len() {
            lemma_plain_char(s[i + 1]);
            lemma_plain_char(s[i + 2]);
        }
    }
}

/// A valid path component holds no delimiter, no unescaped reserved
/// character and no white space: none of `/ ? # [ ] @ : ! $ & ' ( ) * + , ; =`.
pub proof fn law_component_has_no_reserved(s: Seq<char>, i: int)
    requires
        valid_component(s),
        0 <= i < s.len(),
    ensures
        !(s[i] == '/' || s[i] == '?' || s[i] == '#' || s[i] == '[' || s[i] == ']' || s[i] == '@'
            || s[i] == ':' || s[i] == '!' || s[i] == '$' || s[i] == '&' || s[i] == '\'' || s[i] == '('
            || s[i] == ')' || s[i] == '*' || s[i] == '+' || s[i] == ',' || s[i] == ';' || s[i] == '='),
        !is_white_space(s[i]),
{
    assert(component_char_ok(s, i));
}

proof fn lemma_split_plain(s: Seq<char>)
    requires
        forall|i: int| 0 <= i < s.len() ==> #[trigger] s[i] == '/' || plain_uri_char(s[i]),
    ensures
        forall|k: int, t: int|
            0 <= k < split_slash(s).len() && 0 <= t < split_slash(s)[k].len() ==> plain_uri_char(
                #[trigger] split_slash(s)[k][t],
            ),
    decreases s.len(),
{
    if s.len() > 0 {
        let d = s.drop_last();
        assert forall|i: int| 0 <= i < d.len() implies #[trigger] d[i] == '/' || plain_uri_char(d[i]) by {
            assert(d[i] == s[i]);
        }
        lemma_split_plain(d);
        lemma_split_slash_nonempty(d);
        let r = split_slash(d);
        assert(s.last() == s[s.len() - 1]);
        if s.last() != '/' {
            let u = r.update(r.len() - 1, r.last().push(s.last()));
            assert forall|k: int, t: int|
                0 <= k < u.len() && 0 <= t < u[k].len() implies plain_uri_char(#[trigger] u[k][t]) by {
                if k == r.len() - 1 && t == r.last().len() {
                } else if k == r.len() - 1 {
                    assert(u[k][t] == r[k][t]);
                }
            }
        } else {
            let u = r.push(Seq::<char>::empty());
            assert forall|k: int, t: int|
                0 <= k < u.len() && 0 <= t < u[k].len() implies plain_uri_char(#[trigger] u[k][t]) by {
                assert(k < r.len());
                assert(u[k] == r[k]);
            }
        }
    }
}

/// Every request path made of `/` separators and ASCII letters, digits,
/// `-`, `.`, `_` and `~` is accepted.
pub proof fn law_plain_paths_accepted(s: Seq<char>)
    requires
        forall|i: int| 0 <= i < s.len() ==> #[trigger] s[i] == '/' || plain_uri_char(s[i]),
    ensures
        valid_path_text(s),
{
    let t = strip_slashes(s);
    assert forall|i: int| 0 <= i < t.len() implies #[trigger] t[i] == '/' || plain_uri_char(t[i]) by {
        let a = if s.len() > 0 && s.last() == '/' {
            s.drop_last()
        } else {
            s
        };
        assert(a.len() <= s.len());
        assert(forall|j: int| 0 <= j < a.len() ==> a[j] == s[j]);
        if a.len() > 0 && a[0] == '/' {
            assert(t[i] == a[i + 1]);
        } else {
            assert(t[i] == a[i]);
        }
    }
    lemma_split_plain(t);
    assert forall|k: int| 0 <= k < spec_path_parts(s).len() implies valid_component(
        #[trigger] spec_path_parts(s)[k],
    ) by {
        let piece = spec_path_parts(s)[k];
        assert forall|j: int| 0 <= j < piece.len() implies #[trigger] component_char_ok(piece, j) by {
            assert(plain_uri_char(split_slash(t)[k][j]));
            lemma_plain_char(piece[j]);
        }
    }
}

} // verus!
