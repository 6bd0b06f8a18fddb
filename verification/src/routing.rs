//! Route evaluation order and request matching, shared by the data plane and
//! the admin route simulator.

use vstd::prelude::*;
use vstd::seq_lib::to_multiset_insert;

use crate::config::{RouteConfig, RouteModel, routes_view};
use crate::text::{eq_ignore_ascii_case, is_prefix, has_prefix, str_eq, str_eq_ignore_ascii_case};

verus! {

// ---------------------------------------------------------------------------
// Evaluation order
// ---------------------------------------------------------------------------

/// The length of a route's path in bytes, as `str::len` reports it.
pub open spec fn path_bytes(r: RouteModel) -> int {
    (vstd::utf8::encode_utf8(r.path).len() as usize) as int
}

/// `a` is evaluated before `b` on rank alone: a higher priority, or the same
/// priority and a longer path.
pub open spec fn outranks(a: RouteModel, b: RouteModel) -> bool {
    a.priority > b.priority || (a.priority == b.priority && path_bytes(a) > path_bytes(b))
}

/// Where `r` goes among `sorted`: after every route that it does not outrank.
pub open spec fn insertion_point(sorted: Seq<RouteModel>, r: RouteModel) -> int
    decreases sorted.len(),
{
    if sorted.len() == 0 || outranks(r, sorted[0]) {
        0
    } else {
        1 + insertion_point(sorted.drop_first(), r)
    }
}

/// The order in which the proxy evaluates routes: a stable sort by rank, so
/// routes of equal rank keep their configuration order.
pub open spec fn evaluation_order(routes: Seq<RouteModel>) -> Seq<RouteModel>
    decreases routes.len(),
{
    if routes.len() == 0 {
        Seq::empty()
    } else {
        let s = evaluation_order(routes.drop_last());
        s.insert(insertion_point(s, routes.last()), routes.last())
    }
}

/// No route of the sequence is outranked by a later one.
pub open spec fn rank_sorted(s: Seq<RouteModel>) -> bool {
    forall|i: int, j: int| 0 <= i < j < s.len() ==> !outranks(#[trigger] s[j], #[trigger] s[i])
}

pub proof fn lemma_insertion_point(s: Seq<RouteModel>, r: RouteModel)
    ensures
        0 <= insertion_point(s, r) <= s.len(),
        forall|k: int| 0 <= k < insertion_point(s, r) ==> !outranks(r, #[trigger] s[k]),
        insertion_point(s, r) < s.len() ==> outranks(r, s[insertion_point(s, r)]),
    decreases s.len(),
{
    if s.len() > 0 && !outranks(r, s[0]) {
        lemma_insertion_point(s.drop_first(), r);
        assert forall|k: int| 0 <= k < insertion_point(s, r) implies !outranks(r, #[trigger] s[k]) by {
            if k > 0 {
                assert(s[k] == s.drop_first()[k - 1]);
            }
        }
    }
}

/// Evaluation order is sorted by rank and holds the same routes, each as
/// often as the configuration does.
pub proof fn lemma_evaluation_order(routes: Seq<RouteModel>)
    ensures
        rank_sorted(evaluation_order(routes)),
        evaluation_order(routes).len() == routes.len(),
        evaluation_order(routes).to_multiset() == routes.to_multiset(),
    decreases routes.len(),
{
    if routes.len() > 0 {
        let prev = routes.drop_last();
        let s = evaluation_order(prev);
        let x = routes.last();
        lemma_evaluation_order(prev);
        lemma_insertion_point(s, x);
        let p = insertion_point(s, x);
        let out = s.insert(p, x);
        assert forall|i: int, j: int| 0 <= i < j < out.len() implies !outranks(
            #[trigger] out[j],
            #[trigger] out[i],
        ) by {
            if j == p {
                assert(out[i] == s[i]);
            } else if i == p {
                assert(out[j] == s[j - 1]);
                if outranks(s[j - 1], x) && p < s.len() {
                    assert(!outranks(s[j - 1], s[p]));
                }
            } else if j < p {
                assert(out[i] == s[i] && out[j] == s[j]);
            } else if i < p {
                assert(out[i] == s[i] && out[j] == s[j - 1]);
            } else {
                assert(out[i] == s[i - 1] && out[j] == s[j - 1]);
            }
        }
        assert(routes =~= prev.push(x));
        assert(evaluation_order(routes) == out);
        to_multiset_insert(s, p, x);
        vstd::seq_lib::to_multiset_build(prev, x);
        assert(out.to_multiset() == s.to_multiset().insert(x));
        assert(routes.to_multiset() == prev.to_multiset().insert(x));
    } else {
        assert(routes =~= Seq::<RouteModel>::empty());
    }
}

fn path_len(route: &RouteConfig) -> (r: usize)
    ensures
        r == path_bytes(route@),
{
    route.path.as_str().len()
}

/// Decides `outranks`.
pub fn route_outranks(a: &RouteConfig, b: &RouteConfig) -> (r: bool)
    ensures
        r == outranks(a@, b@),
{
    a.priority > b.priority || (a.priority == b.priority && path_len(a) > path_len(b))
}

fn insertion_index(sorted: &Vec<RouteConfig>, r: &RouteConfig) -> (p: usize)
    ensures
        p == insertion_point(routes_view(sorted@), r@),
        p <= sorted@.len(),
{
    proof {
        lemma_insertion_point(routes_view(sorted@), r@);
    }
    let ghost s = routes_view(sorted@);
    let mut j: usize = 0;
    proof {
        assert(s.skip(0) =~= s);
    }
    while j < sorted.len() && !route_outranks(r, &sorted[j])
        invariant
            j <= sorted@.len(),
            s == routes_view(sorted@),
            s.len() == sorted@.len(),
            insertion_point(s, r@) == j + insertion_point(s.skip(j as int), r@),
        decreases sorted@.len() - j,
    {
        proof {
            assert(s.skip(j as int)[0] == s[j as int]);
            assert(s.skip(j as int).drop_first() =~= s.skip(j + 1));
        }
        j = j + 1;
    }
    proof {
        if j < sorted@.len() {
            assert(s.skip(j as int)[0] == s[j as int]);
        }
    }
    j
}

/// Sorts routes in the same order used by the proxy data plane.
pub fn sort_routes(routes: &mut Vec<RouteConfig>)
    ensures
        routes_view(final(routes)@) == evaluation_order(routes_view(old(routes)@)),
{
    let ghost orig = routes_view(old(routes)@);
    let mut input: Vec<RouteConfig> = Vec::new();
    std::mem::swap(&mut input, routes);
    let mut result: Vec<RouteConfig> = Vec::new();
    let ghost mut taken: int = 0;
    proof {
        assert(orig.subrange(0, 0) =~= Seq::<RouteModel>::empty());
        assert(routes_view(result@) =~= Seq::<RouteModel>::empty());
        assert(routes_view(input@) =~= orig.subrange(0, orig.len() as int));
    }
    while input.len() > 0
        invariant
            0 <= taken <= orig.len(),
            routes_view(result@) == evaluation_order(orig.subrange(0, taken)),
            routes_view(input@) == orig.subrange(taken, orig.len() as int),
        decreases input@.len(),
    {
        let ghost old_input = routes_view(input@);
        let ghost raw = input@;
        assert(old_input.len() == input@.len());
        let r = input.remove(0);
        proof {
            assert(old_input[0] == r@);
            assert(r@ == orig[taken]);
            assert forall|k: int| 0 <= k < input@.len() implies routes_view(input@)[k] == orig.subrange(
                taken + 1,
                orig.len() as int,
            )[k] by {
                assert(input@[k] == raw[k + 1]);
                assert(old_input[k + 1] == raw[k + 1]@);
            }
            assert(routes_view(input@) =~= orig.subrange(taken + 1, orig.len() as int));
        }
        let p = insertion_index(&result, &r);
        let ghost before = routes_view(result@);
        result.insert(p, r);
        proof {
            let next = orig.subrange(0, taken + 1);
            assert(next.drop_last() =~= orig.subrange(0, taken));
            assert(next.last() == orig[taken]);
            assert(routes_view(result@) =~= before.insert(p as int, orig[taken]));
            taken = taken + 1;
        }
    }
    proof {
        assert(orig.subrange(0, taken) =~= orig);
    }
    *routes = result;
}

// ---------------------------------------------------------------------------
// Matching
// ---------------------------------------------------------------------------

/// A route's host, when it names one, matches the request host up to ASCII
/// case, or as a case-sensitive prefix followed by a `:port` suffix.
pub open spec fn host_matches(expected: Option<Seq<char>>, actual: Option<Seq<char>>) -> bool {
    match expected {
        None => true,
        Some(e) => match actual {
            None => false,
            Some(a) => eq_ignore_ascii_case(a, e) || (is_prefix(e, a) && a.len() > e.len()
                && a[e.len() as int] == ':'),
        },
    }
}

/// A route path matches the catch-all `/`, itself, or itself followed by a
/// `/`-separated continuation.
pub open spec fn path_matches(route_path: Seq<char>, actual: Seq<char>) -> bool {
    route_path == "/"@ || route_path == actual || (is_prefix(route_path, actual) && actual.len()
        > route_path.len() && actual[route_path.len() as int] == '/')
}

/// An empty method list allows every method; otherwise one entry must equal
/// the method up to ASCII case.
pub open spec fn method_allowed(methods: Seq<Seq<char>>, method: Seq<char>) -> bool {
    methods.len() == 0 || exists|i: int|
        0 <= i < methods.len() && eq_ignore_ascii_case(#[trigger] methods[i], method)
}

pub open spec fn opt_str_view(o: Option<&str>) -> Option<Seq<char>> {
    match o {
        Some(s) => Some(s@),
        None => None,
    }
}

/// A route matches a request when its host, path and method all do.
pub open spec fn matches(r: RouteModel, host: Option<Seq<char>>, path: Seq<char>, method: Seq<char>) -> bool {
    host_matches(r.host, host) && path_matches(r.path, path) && method_allowed(r.methods, method)
}

fn host_matches_exec(expected: Option<&str>, actual: Option<&str>) -> (r: bool)
    ensures
        r == host_matches(opt_str_view(expected), opt_str_view(actual)),
{
    let expected = match expected {
        None => {
            return true;
        },
        Some(e) => e,
    };
    let actual = match actual {
        None => {
            return false;
        },
        Some(a) => a,
    };
    if str_eq_ignore_ascii_case(actual, expected) {
        return true;
    }
    let n = expected.unicode_len();
    has_prefix(expected, actual) && actual.unicode_len() > n && actual.get_char(n) == ':'
}

fn path_matches_exec(route_path: &str, actual: &str) -> (r: bool)
    ensures
        r == path_matches(route_path@, actual@),
{
    if str_eq(route_path, "/") || str_eq(route_path, actual) {
        return true;
    }
    let n = route_path.unicode_len();
    has_prefix(route_path, actual) && actual.unicode_len() > n && actual.get_char(n) == '/'
}

/// Returns whether a route matches an incoming host, path, and method.
#[verifier::loop_isolation(false)]
pub fn route_matches(route: &RouteConfig, host: Option<&str>, path: &str, method: &str) -> (r:
    bool)
    ensures
        r == matches(route@, opt_str_view(host), path@, method@),
{
    let route_host: Option<&str> = match &route.host {
        Some(h) => Some(h.as_str()),
        None => None,
    };
    assert(opt_str_view(route_host) == route@.host);
    if !host_matches_exec(route_host, host) {
        return false;
    }
    if !path_matches_exec(route.path.as_str(), path) {
        return false;
    }
    if route.methods.len() == 0 {
        assert(route@.methods.len() == 0);
        return true;
    }
    let mut i: usize = 0;
    while i < route.methods.len()
        invariant
            i <= route.methods@.len(),
            forall|j: int| 0 <= j < i ==> !eq_ignore_ascii_case(#[trigger] route@.methods[j], method@),
        decreases route.methods@.len() - i,
    {
        if str_eq_ignore_ascii_case(route.methods[i].as_str(), method) {
            assert(eq_ignore_ascii_case(route@.methods[i as int], method@));
            return true;
        }
        i = i + 1;
    }
    false
}

/// The index of the route that the proxy picks among `routes`: a matching
/// route that no other matching route outranks, the earliest among those of
/// equal rank.
pub open spec fn is_selected(
    routes: Seq<RouteModel>,
    i: int,
    host: Option<Seq<char>>,
    path: Seq<char>,
    method: Seq<char>,
) -> bool {
    &&& 0 <= i < routes.len()
    &&& matches(routes[i], host, path, method)
    &&& forall|j: int|
        0 <= j < routes.len() && matches(#[trigger] routes[j], host, path, method) ==> !outranks(
            routes[j],
            routes[i],
        ) && (outranks(routes[i], routes[j]) || i <= j)
}

/// Finds the first route using the exact data-plane evaluation order.
pub fn find_matching_route<'a>(
    routes: &'a Vec<RouteConfig>,
    host: Option<&str>,
    path: &str,
    method: &str,
) -> (r: Option<&'a RouteConfig>)
    ensures
        match r {
            Some(route) => exists|i: int|
                is_selected(routes_view(routes@), i, opt_str_view(host), path@, method@)
                    && routes_view(routes@)[i] == route@,
            None => forall|j: int|
                0 <= j < routes@.len() ==> !matches(
                    #[trigger] routes_view(routes@)[j],
                    opt_str_view(host),
                    path@,
                    method@,
                ),
        },
{
    let ghost s = routes_view(routes@);
    let ghost h = opt_str_view(host);
    let mut best: Option<usize> = None;
    let mut i: usize = 0;
    while i < routes.len()
        invariant
            i <= routes@.len(),
            s == routes_view(routes@),
            s.len() == routes@.len(),
            h == opt_str_view(host),
            match best {
                Some(b) => {
                    &&& b < i
                    &&& matches(s[b as int], h, path@, method@)
                    &&& forall|j: int|
                        0 <= j < i && matches(#[trigger] s[j], h, path@, method@) ==> !outranks(
                            s[j],
                            s[b as int],
                        ) && (outranks(s[b as int], s[j]) || b <= j)
                },
                None => forall|j: int| 0 <= j < i ==> !matches(#[trigger] s[j], h, path@, method@),
            },
        decreases routes@.len() - i,
    {
        assert(s[i as int] == routes@[i as int]@);
        if route_matches(&routes[i], host, path, method) {
            match best {
                None => {
                    best = Some(i);
                },
                Some(b) => {
                    assert(s[b as int] == routes@[b as int]@);
                    if route_outranks(&routes[i], &routes[b]) {
                        best = Some(i);
                    }
                },
            }
        }
        i = i + 1;
    }
    match best {
        Some(b) => {
            assert(is_selected(s, b as int, h, path@, method@));
            assert(s[b as int] == routes@[b as int]@);
            Some(&routes[b])
        },
        None => None,
    }
}

/// The position of the first route that matches, in the given order; the
/// proxy keeps its routes in evaluation order and uses this position.
pub fn first_matching_index(routes: &Vec<RouteConfig>, host: Option<&str>, path: &str, method: &str) -> (r:
    Option<usize>)
    ensures
        match r {
            Some(i) => i < routes@.len() && matches(routes@[i as int]@, opt_str_view(host), path@, method@)
                && forall|j: int| 0 <= j < i ==> !matches(#[trigger] routes@[j]@, opt_str_view(host), path@, method@),
            None => forall|j: int| 0 <= j < routes@.len() ==> !matches(#[trigger] routes@[j]@, opt_str_view(host), path@, method@),
        },
{
    let mut i: usize = 0;
    while i < routes.len()
        invariant
            i <= routes@.len(),
            forall|j: int| 0 <= j < i ==> !matches(#[trigger] routes@[j]@, opt_str_view(host), path@, method@),
        decreases routes@.len() - i,
    {
        if route_matches(&routes[i], host, path, method) {
            return Some(i);
        }
        i = i + 1;
    }
    None
}

} // verus!

verus! {

// ---------------------------------------------------------------------------
// The simulator and the data plane agree
// ---------------------------------------------------------------------------

/// The best matching route of a configuration, read in order: a later
/// matching route replaces the best so far only when it outranks it.
pub open spec fn best_match(
    routes: Seq<RouteModel>,
    host: Option<Seq<char>>,
    path: Seq<char>,
    method: Seq<char>,
) -> Option<RouteModel>
    decreases routes.len(),
{
    if routes.len() == 0 {
        None
    } else {
        let best = best_match(routes.drop_last(), host, path, method);
        let x = routes.last();
        if !matches(x, host, path, method) {
            best
        } else {
            match best {
                None => Some(x),
                Some(y) => if outranks(x, y) {
                    Some(x)
                } else {
                    Some(y)
                },
            }
        }
    }
}

/// The position of the first matching route of a sequence.
pub open spec fn first_match_position(
    s: Seq<RouteModel>,
    host: Option<Seq<char>>,
    path: Seq<char>,
    method: Seq<char>,
) -> Option<int>
    decreases s.len(),
{
    if s.len() == 0 {
        None
    } else if matches(s[0], host, path, method) {
        Some(0)
    } else {
        match first_match_position(s.drop_first(), host, path, method) {
            Some(k) => Some(k + 1),
            None => None,
        }
    }
}

pub proof fn lemma_first_match_position(
    s: Seq<RouteModel>,
    host: Option<Seq<char>>,
    path: Seq<char>,
    method: Seq<char>,
)
    ensures
        match first_match_position(s, host, path, method) {
            Some(k) => 0 <= k < s.len() && matches(s[k], host, path, method) && forall|j: int|
                0 <= j < k ==> !matches(#[trigger] s[j], host, path, method),
            None => forall|j: int| 0 <= j < s.len() ==> !matches(#[trigger] s[j], host, path, method),
        },
    decreases s.len(),
{
    if s.len() > 0 && !matches(s[0], host, path, method) {
        lemma_first_match_position(s.drop_first(), host, path, method);
        match first_match_position(s.drop_first(), host, path, method) {
            Some(k) => {
                assert forall|j: int| 0 <= j < k + 1 implies !matches(
                    #[trigger] s[j],
                    host,
                    path,
                    method,
                ) by {
                    if j > 0 {
                        assert(s[j] == s.drop_first()[j - 1]);
                    }
                }
            },
            None => {
                assert forall|j: int| 0 <= j < s.len() implies !matches(
                    #[trigger] s[j],
                    host,
                    path,
                    method,
                ) by {
                    if j > 0 {
                        assert(s[j] == s.drop_first()[j - 1]);
                    }
                }
            },
        }
    }
}

/// The first match is the position the properties single out.
pub proof fn lemma_first_match_unique(
    s: Seq<RouteModel>,
    host: Option<Seq<char>>,
    path: Seq<char>,
    method: Seq<char>,
    k: int,
)
    requires
        0 <= k < s.len(),
        matches(s[k], host, path, method),
        forall|j: int| 0 <= j < k ==> !matches(#[trigger] s[j], host, path, method),
    ensures
        first_match_position(s, host, path, method) == Some(k),
{
    lemma_first_match_position(s, host, path, method);
    match first_match_position(s, host, path, method) {
        Some(f) => {
            if f < k {
                assert(!matches(s[f], host, path, method));
            } else if f > k {
                assert(!matches(s[k], host, path, method));
            }
        },
        None => {
            assert(!matches(s[k], host, path, method));
        },
    }
}

/// The best match is a matching route of the configuration, and there is
/// one exactly when some route matches.
pub proof fn lemma_best_match_is_a_match(
    routes: Seq<RouteModel>,
    host: Option<Seq<char>>,
    path: Seq<char>,
    method: Seq<char>,
)
    ensures
        match best_match(routes, host, path, method) {
            Some(r) => matches(r, host, path, method) && routes.contains(r),
            None => forall|j: int|
                0 <= j < routes.len() ==> !matches(#[trigger] routes[j], host, path, method),
        },
    decreases routes.len(),
{
    if routes.len() > 0 {
        let prev = routes.drop_last();
        lemma_best_match_is_a_match(prev, host, path, method);
        match best_match(prev, host, path, method) {
            Some(y) => {
                let j = choose|j: int| 0 <= j < prev.len() && prev[j] == y;
                assert(routes[j] == y);
                assert(routes[routes.len() - 1] == routes.last());
            },
            None => {
                assert forall|j: int| 0 <= j < routes.len() - 1 implies !matches(
                    #[trigger] routes[j],
                    host,
                    path,
                    method,
                ) by {
                    assert(routes[j] == prev[j]);
                }
                assert(routes[routes.len() - 1] == routes.last());
            },
        }
    }
}

/// The route the simulator selects is the best match.
pub proof fn lemma_selected_is_best(
    routes: Seq<RouteModel>,
    i: int,
    host: Option<Seq<char>>,
    path: Seq<char>,
    method: Seq<char>,
)
    requires
        is_selected(routes, i, host, path, method),
    ensures
        best_match(routes, host, path, method) == Some(routes[i]),
    decreases routes.len(),
{
    let prev = routes.drop_last();
    let x = routes.last();
    if i < routes.len() - 1 {
        assert(is_selected(prev, i, host, path, method)) by {
            assert forall|j: int|
                0 <= j < prev.len() && matches(#[trigger] prev[j], host, path, method) implies !outranks(
                prev[j],
                prev[i],
            ) && (outranks(prev[i], prev[j]) || i <= j) by {
                assert(prev[j] == routes[j]);
            }
        }
        lemma_selected_is_best(prev, i, host, path, method);
        assert(routes[routes.len() - 1] == x);
    } else {
        lemma_best_match_is_a_match(prev, host, path, method);
        match best_match(prev, host, path, method) {
            Some(y) => {
                let j = choose|j: int| 0 <= j < prev.len() && prev[j] == y;
                assert(routes[j] == y);
            },
            None => {},
        }
    }
}

/// Inserting a route into a sequence moves its first match only when the
/// new route matches ahead of every earlier match.
proof fn lemma_first_match_insert(
    s: Seq<RouteModel>,
    p: int,
    x: RouteModel,
    host: Option<Seq<char>>,
    path: Seq<char>,
    method: Seq<char>,
)
    requires
        0 <= p <= s.len(),
    ensures
        ({
            let out = s.insert(p, x);
            let before = first_match_position(s, host, path, method);
            match before {
                Some(k) => if k < p {
                    first_match_position(out, host, path, method) == Some(k)
                } else if matches(x, host, path, method) {
                    first_match_position(out, host, path, method) == Some(p)
                } else {
                    first_match_position(out, host, path, method) == Some(k + 1)
                },
                None => if matches(x, host, path, method) {
                    first_match_position(out, host, path, method) == Some(p)
                } else {
                    first_match_position(out, host, path, method) is None
                },
            }
        }),
{
    let out = s.insert(p, x);
    lemma_first_match_position(s, host, path, method);
    match first_match_position(s, host, path, method) {
        Some(k) => {
            if k < p {
                assert(out[k] == s[k]);
                assert forall|j: int| 0 <= j < k implies !matches(#[trigger] out[j], host, path, method) by {
                    assert(out[j] == s[j]);
                }
                lemma_first_match_unique(out, host, path, method, k);
            } else if matches(x, host, path, method) {
                assert forall|j: int| 0 <= j < p implies !matches(#[trigger] out[j], host, path, method) by {
                    assert(out[j] == s[j]);
                }
                lemma_first_match_unique(out, host, path, method, p);
            } else {
                assert(out[k + 1] == s[k]);
                assert forall|j: int| 0 <= j < k + 1 implies !matches(
                    #[trigger] out[j],
                    host,
                    path,
                    method,
                ) by {
                    if j < p {
                        assert(out[j] == s[j]);
                    } else if j > p {
                        assert(out[j] == s[j - 1]);
                    }
                }
                lemma_first_match_unique(out, host, path, method, k + 1);
            }
        },
        None => {
            if matches(x, host, path, method) {
                assert forall|j: int| 0 <= j < p implies !matches(#[trigger] out[j], host, path, method) by {
                    assert(out[j] == s[j]);
                }
                lemma_first_match_unique(out, host, path, method, p);
            } else {
                lemma_first_match_position(out, host, path, method);
                if first_match_position(out, host, path, method) is Some {
                    let f = first_match_position(out, host, path, method)->Some_0;
                    if f < p {
                        assert(out[f] == s[f]);
                    } else if f > p {
                        assert(out[f] == s[f - 1]);
                    }
                }
            }
        },
    }
}

/// The first match in evaluation order is the best match.
pub proof fn lemma_first_in_order_is_best(
    routes: Seq<RouteModel>,
    host: Option<Seq<char>>,
    path: Seq<char>,
    method: Seq<char>,
)
    ensures
        match first_match_position(evaluation_order(routes), host, path, method) {
            Some(k) => best_match(routes, host, path, method) == Some(
                evaluation_order(routes)[k],
            ),
            None => best_match(routes, host, path, method) is None,
        },
    decreases routes.len(),
{
    if routes.len() > 0 {
        let prev = routes.drop_last();
        let x = routes.last();
        let s = evaluation_order(prev);
        lemma_first_in_order_is_best(prev, host, path, method);
        lemma_evaluation_order(prev);
        lemma_insertion_point(s, x);
        let p = insertion_point(s, x);
        let out = s.insert(p, x);
        assert(evaluation_order(routes) == out);
        lemma_first_match_insert(s, p, x, host, path, method);
        lemma_first_match_position(s, host, path, method);
        match first_match_position(s, host, path, method) {
            Some(k) => {
                if k < p {
                    assert(out[k] == s[k]);
                } else if matches(x, host, path, method) {
                    assert(outranks(x, s[p]));
                    assert(!outranks(s[k], s[p]) || k == p);
                    assert(out[p] == x);
                } else {
                    assert(out[k + 1] == s[k]);
                }
            },
            None => {
                if matches(x, host, path, method) {
                    assert(out[p] == x);
                }
            },
        }
    }
}

/// The route simulator and the data plane agree: the route that the
/// simulator selects among the configured routes is the first route that
/// matches in evaluation order, and when it selects none, none matches.
pub proof fn law_simulator_agrees_with_data_plane(
    routes: Seq<RouteModel>,
    host: Option<Seq<char>>,
    path: Seq<char>,
    method: Seq<char>,
)
    ensures
        forall|i: int|
            #[trigger] is_selected(routes, i, host, path, method) ==> (first_match_position(
                evaluation_order(routes),
                host,
                path,
                method,
            ) matches Some(k) && evaluation_order(routes)[k] == routes[i]),
        (forall|j: int|
            0 <= j < routes.len() ==> !matches(#[trigger] routes[j], host, path, method))
            ==> first_match_position(evaluation_order(routes), host, path, method) is None,
{
    lemma_first_in_order_is_best(routes, host, path, method);
    lemma_best_match_is_a_match(routes, host, path, method);
    assert forall|i: int| #[trigger] is_selected(routes, i, host, path, method) implies (first_match_position(
        evaluation_order(routes),
        host,
        path,
        method,
    ) matches Some(k) && evaluation_order(routes)[k] == routes[i]) by {
        lemma_selected_is_best(routes, i, host, path, method);
    }
    if forall|j: int| 0 <= j < routes.len() ==> !matches(#[trigger] routes[j], host, path, method) {
        if first_match_position(evaluation_order(routes), host, path, method) is Some {
            assert(best_match(routes, host, path, method) is Some);
            let r = best_match(routes, host, path, method)->Some_0;
            let j = choose|j: int| 0 <= j < routes.len() && routes[j] == r;
            assert(matches(routes[j], host, path, method));
        }
    }
}

} // verus!

verus! {

/// At most one route is selected for a request, so the simulator's answer
/// is determined by the routes and the request.
pub proof fn law_selection_is_unique(
    routes: Seq<RouteModel>,
    i: int,
    k: int,
    host: Option<Seq<char>>,
    path: Seq<char>,
    method: Seq<char>,
)
    requires
        is_selected(routes, i, host, path, method),
        is_selected(routes, k, host, path, method),
    ensures
        i == k,
{
    assert(matches(routes[k], host, path, method));
    assert(matches(routes[i], host, path, method));
}

/// A route that lists methods accepts a request whose host and path match
/// when any entry of the list, wherever it stands, equals the request's
/// method up to ASCII case.
pub proof fn law_any_listed_method_is_allowed(
    r: RouteModel,
    host: Option<Seq<char>>,
    path: Seq<char>,
    method: Seq<char>,
    i: int,
)
    requires
        host_matches(r.host, host),
        path_matches(r.path, path),
        0 <= i < r.methods.len(),
        eq_ignore_ascii_case(r.methods[i], method),
    ensures
        matches(r, host, path, method),
{
}

/// A route that lists methods refuses a method that no entry equals up to
/// ASCII case; a route that lists none refuses no method.
pub proof fn law_unlisted_method_is_refused(
    r: RouteModel,
    host: Option<Seq<char>>,
    path: Seq<char>,
    method: Seq<char>,
)
    ensures
        r.methods.len() > 0 && (forall|i: int|
            0 <= i < r.methods.len() ==> !eq_ignore_ascii_case(r.methods[i], method)) ==> !matches(
            r,
            host,
            path,
            method,
        ),
        r.methods.len() == 0 ==> (matches(r, host, path, method) <==> (host_matches(r.host, host)
            && path_matches(r.path, path))),
{
}

/// Only which methods a route lists matters, not their order or repetition.
pub proof fn law_method_order_is_irrelevant(
    r: RouteModel,
    methods: Seq<Seq<char>>,
    host: Option<Seq<char>>,
    path: Seq<char>,
    method: Seq<char>,
)
    requires
        forall|m: Seq<char>| #[trigger] r.methods.contains(m) <==> methods.contains(m),
    ensures
        matches(r, host, path, method) == matches(RouteModel { methods, ..r }, host, path, method),
{
    if r.methods.len() > 0 {
        assert(r.methods.contains(r.methods[0]));
    }
    if methods.len() > 0 {
        assert(methods.contains(methods[0]));
        assert(r.methods.contains(methods[0]));
    }
    if matches(r, host, path, method) && r.methods.len() > 0 {
        let i = choose|i: int| 0 <= i < r.methods.len() && eq_ignore_ascii_case(r.methods[i], method);
        assert(r.methods.contains(r.methods[i]));
        let j = choose|j: int| 0 <= j < methods.len() && methods[j] == r.methods[i];
        assert(eq_ignore_ascii_case(methods[j], method));
    }
    if matches(RouteModel { methods, ..r }, host, path, method) && methods.len() > 0 {
        let i = choose|i: int| 0 <= i < methods.len() && eq_ignore_ascii_case(methods[i], method);
        assert(methods.contains(methods[i]));
        assert(r.methods.contains(methods[i]));
        let j = choose|j: int| 0 <= j < r.methods.len() && r.methods[j] == methods[i];
        assert(eq_ignore_ascii_case(r.methods[j], method));
    }
}

/// A route without a host matches any request host; a route with a host
/// matches that host in any ASCII case, or that host followed by `:` and a
/// port, and never a request without a host.
pub proof fn law_host_matching(r: RouteModel, host: Option<Seq<char>>, path: Seq<char>, method: Seq<char>)
    requires
        path_matches(r.path, path),
        method_allowed(r.methods, method),
    ensures
        r.host is None ==> matches(r, host, path, method),
        r.host is Some && host is None ==> !matches(r, host, path, method),
        (r.host matches Some(h) && host matches Some(a) && eq_ignore_ascii_case(a, h)) ==> matches(
            r,
            host,
            path,
            method,
        ),
        (r.host matches Some(h) && host matches Some(a) && a.len() > h.len() && a.subrange(
            0,
            h.len() as int,
        ) == h && a[h.len() as int] == ':') ==> matches(r, host, path, method),
{
    if r.host is Some && host is Some {
        let h = r.host->0;
        let a = host->0;
        if a.len() > h.len() && a.subrange(0, h.len() as int) == h {
            assert forall|k: int| 0 <= k < h.len() implies h[k] == a[k] by {
                assert(a.subrange(0, h.len() as int)[k] == a[k]);
            }
        }
    }
}

/// The catch-all path `/` matches every request path; any other route path
/// matches itself and every path that continues it after a `/`.
pub proof fn law_path_matching(
    r: RouteModel,
    host: Option<Seq<char>>,
    path: Seq<char>,
    method: Seq<char>,
    rest: Seq<char>,
)
    requires
        host_matches(r.host, host),
        method_allowed(r.methods, method),
    ensures
        r.path == "/"@ ==> matches(r, host, path, method),
        matches(r, host, r.path, method),
        matches(r, host, r.path + "/"@ + rest, method),
{
    reveal_strlit("/");
    let longer = r.path + "/"@ + rest;
    assert(longer.subrange(0, r.path.len() as int) =~= r.path);
    assert(longer[r.path.len() as int] == '/');
    assert(is_prefix(r.path, longer));
}

/// Evaluation order holds every configured route as often as the
/// configuration does, and puts a route before another only when its
/// priority is higher, or equal with a path at least as long in bytes.
pub proof fn law_evaluation_order_ranks(routes: Seq<RouteModel>)
    ensures
        evaluation_order(routes).to_multiset() == routes.to_multiset(),
        forall|i: int, j: int|
            0 <= i < j < evaluation_order(routes).len() ==> {
                let a = #[trigger] evaluation_order(routes)[i];
                let b = #[trigger] evaluation_order(routes)[j];
                a.priority > b.priority || (a.priority == b.priority && path_bytes(a) >= path_bytes(
                    b,
                ))
            },
{
    lemma_evaluation_order(routes);
    let s = evaluation_order(routes);
    assert forall|i: int, j: int| 0 <= i < j < s.len() implies {
        let a = #[trigger] s[i];
        let b = #[trigger] s[j];
        a.priority > b.priority || (a.priority == b.priority && path_bytes(a) >= path_bytes(b))
    } by {
        assert(!outranks(s[j], s[i]));
    }
}

} // verus!
