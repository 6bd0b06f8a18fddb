//! What changes between two configurations, and whether the change needs a
//! process restart.

use vstd::prelude::*;

use crate::config::{
    config_valid, first_route_problem, name_seen_before, route_problem, routes_view, strings_view,
    Config, ConfigModel, RouteConfig, RouteModel,
};
use crate::config::UpstreamModel;
use crate::ordered::{
    added_key_list, added_keys, changed_key_list, changed_keys, has_key, inserted, lemma_added_keys_empty,
    lemma_added_keys_nonempty, lemma_changed_keys_empty, lemma_changed_keys_nonempty, lemma_inserted,
    lemma_changed_keys_symmetric, lemma_sorted_equal, lemma_sorted_lookup, lookup, sorted, DeepCopy,
    OrderedMap,
};

verus! {

pub struct DiffModel {
    pub server_changed: bool,
    pub admin_changed: bool,
    pub upstreams_added: Seq<Seq<char>>,
    pub upstreams_removed: Seq<Seq<char>>,
    pub upstreams_changed: Seq<Seq<char>>,
    pub routes_added: Seq<Seq<char>>,
    pub routes_removed: Seq<Seq<char>>,
    pub routes_changed: Seq<Seq<char>>,
}

/// Routes keyed by name in name order; where names repeat, the later route wins.
pub open spec fn routes_by_name(routes: Seq<RouteModel>) -> Seq<(Seq<char>, RouteModel)>
    decreases routes.len(),
{
    if routes.len() == 0 {
        Seq::empty()
    } else {
        inserted::<String, RouteModel>(
            routes_by_name(routes.drop_last()),
            routes.last().name,
            routes.last(),
        )
    }
}

/// The difference between a current and a candidate configuration: listener
/// changes, and the upstream and route names that were added, removed or
/// changed, each list in name order.
pub open spec fn diff_of(current: ConfigModel, candidate: ConfigModel) -> DiffModel {
    let current_routes = routes_by_name(current.routes);
    let candidate_routes = routes_by_name(candidate.routes);
    DiffModel {
        server_changed: current.server != candidate.server,
        admin_changed: current.admin != candidate.admin,
        upstreams_added: added_keys(current.upstreams, candidate.upstreams),
        upstreams_removed: added_keys(candidate.upstreams, current.upstreams),
        upstreams_changed: changed_keys(current.upstreams, candidate.upstreams),
        routes_added: added_keys(current_routes, candidate_routes),
        routes_removed: added_keys(candidate_routes, current_routes),
        routes_changed: changed_keys(current_routes, candidate_routes),
    }
}

/// A diff is empty when nothing changed.
pub open spec fn diff_is_empty(d: DiffModel) -> bool {
    &&& !d.server_changed
    &&& !d.admin_changed
    &&& d.upstreams_added.len() == 0
    &&& d.upstreams_removed.len() == 0
    &&& d.upstreams_changed.len() == 0
    &&& d.routes_added.len() == 0
    &&& d.routes_removed.len() == 0
    &&& d.routes_changed.len() == 0
}

/// Listener and upstream changes need a restart; route changes do not.
pub open spec fn needs_restart(d: DiffModel) -> bool {
    ||| d.server_changed
    ||| d.admin_changed
    ||| d.upstreams_added.len() > 0
    ||| d.upstreams_removed.len() > 0
    ||| d.upstreams_changed.len() > 0
}

#[derive(Clone, Debug, Default, PartialEq, Eq)]
pub struct ConfigDiff {
    pub server_changed: bool,
    pub admin_changed: bool,
    pub upstreams_added: Vec<String>,
    pub upstreams_removed: Vec<String>,
    pub upstreams_changed: Vec<String>,
    pub routes_added: Vec<String>,
    pub routes_removed: Vec<String>,
    pub routes_changed: Vec<String>,
}

impl View for ConfigDiff {
    type V = DiffModel;

    open spec fn view(&self) -> DiffModel {
        DiffModel {
            server_changed: self.server_changed,
            admin_changed: self.admin_changed,
            upstreams_added: strings_view(self.upstreams_added@),
            upstreams_removed: strings_view(self.upstreams_removed@),
            upstreams_changed: strings_view(self.upstreams_changed@),
            routes_added: strings_view(self.routes_added@),
            routes_removed: strings_view(self.routes_removed@),
            routes_changed: strings_view(self.routes_changed@),
        }
    }
}

/// The routes of a configuration keyed by name.
pub fn route_map(routes: &Vec<RouteConfig>) -> (r: OrderedMap<String, RouteConfig>)
    ensures
        r@ == routes_by_name(routes_view(routes@)),
{
    let ghost all = routes_view(routes@);
    let mut r: OrderedMap<String, RouteConfig> = OrderedMap::new();
    let mut i: usize = 0;
    proof {
        assert(all.subrange(0, 0) =~= Seq::<RouteModel>::empty());
    }
    while i < routes.len()
        invariant
            i <= routes@.len(),
            all == routes_view(routes@),
            all.len() == routes@.len(),
            r@ == routes_by_name(all.subrange(0, i as int)),
        decreases routes@.len() - i,
    {
        let route = &routes[i];
        let ghost next = all.subrange(0, i + 1);
        assert(next.drop_last() =~= all.subrange(0, i as int));
        assert(next.last() == route@);
        r.insert(route.name.clone(), route.deep_copy());
        i = i + 1;
    }
    assert(all.subrange(0, all.len() as int) =~= all);
    r
}

impl ConfigDiff {
    /// The difference from `current` to `candidate`.
    pub fn between(current: &Config, candidate: &Config) -> (r: Self)
        ensures
            r@ == diff_of(current@, candidate@),
            needs_restart(r@) <==> !(current@.server == candidate@.server && current@.admin
                == candidate@.admin && current@.upstreams == candidate@.upstreams),
            diff_is_empty(r@) <==> (current@.server == candidate@.server && current@.admin
                == candidate@.admin && current@.upstreams == candidate@.upstreams
                && routes_by_name(current@.routes) == routes_by_name(candidate@.routes)),
            r@.upstreams_changed == diff_of(candidate@, current@).upstreams_changed,
            r@.routes_changed == diff_of(candidate@, current@).routes_changed,
            config_valid(current@) && config_valid(candidate@) ==> (diff_is_empty(r@) <==> (
            current@.server == candidate@.server && current@.admin == candidate@.admin
                && current@.upstreams == candidate@.upstreams && current@.routes.to_multiset()
                == candidate@.routes.to_multiset())),
    {
        proof {
            use_type_invariant(&current.upstreams);
            use_type_invariant(&candidate.upstreams);
            law_restart_iff_structural_change(current@, candidate@);
            law_empty_iff_same_by_name(current@, candidate@);
            law_diff_reversed(current@, candidate@);
            if config_valid(current@) && config_valid(candidate@) {
                lemma_valid_route_names_distinct(current@);
                lemma_valid_route_names_distinct(candidate@);
                law_empty_iff_same_configuration(current@, candidate@);
            }
        }
        let current_routes = route_map(&current.routes);
        let candidate_routes = route_map(&candidate.routes);
        let server_same = current.server.deep_eq(&candidate.server);
        let admin_same = current.admin.deep_eq(&candidate.admin);
        ConfigDiff {
            server_changed: !server_same,
            admin_changed: !admin_same,
            upstreams_added: added_key_list(&current.upstreams, &candidate.upstreams),
            upstreams_removed: added_key_list(&candidate.upstreams, &current.upstreams),
            upstreams_changed: changed_key_list(&current.upstreams, &candidate.upstreams),
            routes_added: added_key_list(&current_routes, &candidate_routes),
            routes_removed: added_key_list(&candidate_routes, &current_routes),
            routes_changed: changed_key_list(&current_routes, &candidate_routes),
        }
    }

    /// Nothing changed.
    pub fn is_empty(&self) -> (r: bool)
        ensures
            r == diff_is_empty(self@),
    {
        !self.server_changed && !self.admin_changed && self.upstreams_added.len() == 0
            && self.upstreams_removed.len() == 0 && self.upstreams_changed.len() == 0
            && self.routes_added.len() == 0 && self.routes_removed.len() == 0
            && self.routes_changed.len() == 0
    }

    /// The change touches listeners or upstreams, which running proxies
    /// cannot take over without a restart.
    pub fn restart_required(&self) -> (r: bool)
        ensures
            r == needs_restart(self@),
    {
        self.server_changed || self.admin_changed || self.upstreams_added.len() > 0
            || self.upstreams_removed.len() > 0 || self.upstreams_changed.len() > 0
    }
}

// ---------------------------------------------------------------------------
// Laws
// ---------------------------------------------------------------------------

pub proof fn lemma_routes_by_name_sorted(routes: Seq<RouteModel>)
    ensures
        sorted::<String, RouteModel>(routes_by_name(routes)),
    decreases routes.len(),
{
    if routes.len() > 0 {
        lemma_routes_by_name_sorted(routes.drop_last());
        lemma_inserted::<String, RouteModel>(
            routes_by_name(routes.drop_last()),
            routes.last().name,
            routes.last(),
        );
    }
}

proof fn lemma_self_compare<T>(m: Seq<(Seq<char>, T)>)
    requires
        sorted::<String, T>(m),
    ensures
        added_keys(m, m).len() == 0,
        changed_keys(m, m).len() == 0,
{
    assert forall|i: int| 0 <= i < m.len() implies has_key(m, #[trigger] m[i].0) by {
        lemma_sorted_lookup::<String, T>(m, i);
    }
    lemma_added_keys_empty(m, m);
    assert forall|i: int| 0 <= i < m.len() implies !has_key(m, #[trigger] m[i].0) || lookup(
        m,
        m[i].0,
    ) == Some(m[i].1) by {
        lemma_sorted_lookup::<String, T>(m, i);
    }
    lemma_changed_keys_empty(m, m);
}

/// Two sorted maps compare with nothing added, removed or changed exactly
/// when they are equal.
proof fn lemma_compare_empty_iff_equal<T>(x: Seq<(Seq<char>, T)>, y: Seq<(Seq<char>, T)>)
    requires
        sorted::<String, T>(x),
        sorted::<String, T>(y),
    ensures
        (added_keys(x, y).len() == 0 && added_keys(y, x).len() == 0 && changed_keys(x, y).len()
            == 0) <==> x == y,
{
    if added_keys(x, y).len() == 0 && added_keys(y, x).len() == 0 && changed_keys(x, y).len() == 0 {
        assert forall|k: Seq<char>| #[trigger] lookup(x, k) == lookup(y, k) by {
            if has_key(x, k) {
                let i = choose|i: int| 0 <= i < x.len() && x[i].0 == k;
                lemma_sorted_lookup::<String, T>(x, i);
                if !has_key(y, k) {
                    lemma_added_keys_nonempty(y, x, i);
                } else if lookup(y, k) != Some(x[i].1) {
                    lemma_changed_keys_nonempty(x, y, i);
                }
            } else if has_key(y, k) {
                let j = choose|j: int| 0 <= j < y.len() && y[j].0 == k;
                lemma_added_keys_nonempty(x, y, j);
            }
        }
        lemma_sorted_equal::<String, T>(x, y);
    }
    if x == y {
        lemma_self_compare(x);
    }
}

/// A configuration compared with itself shows no change at all.
pub proof fn law_diff_with_itself_is_empty(c: ConfigModel)
    requires
        sorted::<String, UpstreamModel>(c.upstreams),
    ensures
        diff_is_empty(diff_of(c, c)),
        !needs_restart(diff_of(c, c)),
{
    lemma_self_compare(c.upstreams);
    lemma_routes_by_name_sorted(c.routes);
    lemma_self_compare(routes_by_name(c.routes));
}

/// Comparing in the other direction swaps what was added and what was
/// removed, and reports the same changed names and listener changes.
pub proof fn law_diff_reversed(a: ConfigModel, b: ConfigModel)
    requires
        sorted::<String, UpstreamModel>(a.upstreams),
        sorted::<String, UpstreamModel>(b.upstreams),
    ensures
        diff_of(b, a).upstreams_added == diff_of(a, b).upstreams_removed,
        diff_of(b, a).upstreams_removed == diff_of(a, b).upstreams_added,
        diff_of(b, a).upstreams_changed == diff_of(a, b).upstreams_changed,
        diff_of(b, a).routes_added == diff_of(a, b).routes_removed,
        diff_of(b, a).routes_removed == diff_of(a, b).routes_added,
        diff_of(b, a).routes_changed == diff_of(a, b).routes_changed,
        diff_of(b, a).server_changed == diff_of(a, b).server_changed,
        diff_of(b, a).admin_changed == diff_of(a, b).admin_changed,
{
    lemma_changed_keys_symmetric::<String, UpstreamModel>(a.upstreams, b.upstreams);
    lemma_routes_by_name_sorted(a.routes);
    lemma_routes_by_name_sorted(b.routes);
    lemma_changed_keys_symmetric::<String, RouteModel>(
        routes_by_name(a.routes),
        routes_by_name(b.routes),
    );
}

/// A change needs no restart exactly when the listeners and the upstreams
/// are the same on both sides: only routes changed. A change that needs a
/// restart is never empty.
pub proof fn law_restart_iff_structural_change(a: ConfigModel, b: ConfigModel)
    requires
        sorted::<String, UpstreamModel>(a.upstreams),
        sorted::<String, UpstreamModel>(b.upstreams),
    ensures
        !needs_restart(diff_of(a, b)) <==> (a.server == b.server && a.admin == b.admin
            && a.upstreams == b.upstreams),
        needs_restart(diff_of(a, b)) ==> !diff_is_empty(diff_of(a, b)),
{
    lemma_compare_empty_iff_equal(a.upstreams, b.upstreams);
}

/// A diff is empty exactly when the listeners and the upstreams are the same
/// and both sides map every route name to the same route.
pub proof fn law_empty_iff_same_by_name(a: ConfigModel, b: ConfigModel)
    requires
        sorted::<String, UpstreamModel>(a.upstreams),
        sorted::<String, UpstreamModel>(b.upstreams),
    ensures
        diff_is_empty(diff_of(a, b)) <==> (a.server == b.server && a.admin == b.admin
            && a.upstreams == b.upstreams && routes_by_name(a.routes) == routes_by_name(b.routes)),
{
    lemma_compare_empty_iff_equal(a.upstreams, b.upstreams);
    lemma_routes_by_name_sorted(a.routes);
    lemma_routes_by_name_sorted(b.routes);
    lemma_compare_empty_iff_equal(routes_by_name(a.routes), routes_by_name(b.routes));
}

/// No two routes share a name.
pub open spec fn route_names_distinct(routes: Seq<RouteModel>) -> bool {
    forall|i: int, j: int|
        0 <= i < routes.len() && 0 <= j < routes.len() && i != j ==> #[trigger] routes[i].name
            != #[trigger] routes[j].name
}

/// With distinct names, a name maps to the route of that name.
proof fn lemma_routes_by_name_lookup(routes: Seq<RouteModel>)
    requires
        route_names_distinct(routes),
    ensures
        forall|n: Seq<char>|
            #[trigger] lookup(routes_by_name(routes), n) is Some ==> routes.contains(
                lookup(routes_by_name(routes), n)->0,
            ) && lookup(routes_by_name(routes), n)->0.name == n,
        forall|r: RouteModel|
            #[trigger] routes.contains(r) ==> lookup(routes_by_name(routes), r.name) == Some(r),
    decreases routes.len(),
{
    if routes.len() > 0 {
        let rest = routes.drop_last();
        let l = routes.last();
        let n1 = routes.len() - 1;
        assert(route_names_distinct(rest)) by {
            assert forall|i: int, j: int|
                0 <= i < rest.len() && 0 <= j < rest.len() && i != j implies #[trigger] rest[i].name
                != #[trigger] rest[j].name by {
                assert(rest[i] == routes[i] && rest[j] == routes[j]);
            }
        }
        lemma_routes_by_name_lookup(rest);
        lemma_routes_by_name_sorted(rest);
        lemma_inserted::<String, RouteModel>(routes_by_name(rest), l.name, l);
        assert(routes_by_name(routes) == inserted::<String, RouteModel>(
            routes_by_name(rest),
            l.name,
            l,
        ));
        assert forall|n: Seq<char>|
            #[trigger] lookup(routes_by_name(routes), n) is Some implies routes.contains(
                lookup(routes_by_name(routes), n)->0,
            ) && lookup(routes_by_name(routes), n)->0.name == n by {
            if n == l.name {
                assert(routes[n1] == l);
            } else {
                assert(lookup(routes_by_name(routes), n) == lookup(routes_by_name(rest), n));
                let r = lookup(routes_by_name(rest), n)->0;
                assert(rest.contains(r));
                let i = choose|i: int| 0 <= i < rest.len() && rest[i] == r;
                assert(routes[i] == r);
            }
        }
        assert forall|r: RouteModel| #[trigger] routes.contains(r) implies lookup(
            routes_by_name(routes),
            r.name,
        ) == Some(r) by {
            let i = choose|i: int| 0 <= i < routes.len() && routes[i] == r;
            if i < n1 {
                assert(rest[i] == r);
                assert(rest.contains(r));
                assert(routes[i].name != routes[n1].name);
                assert(lookup(routes_by_name(routes), r.name) == lookup(
                    routes_by_name(rest),
                    r.name,
                ));
            }
        }
    }
}

/// With distinct names on each side, two route lists map every name alike
/// exactly when they hold the same routes, each as often as the other.
pub proof fn law_same_by_name_iff_same_routes(a: Seq<RouteModel>, b: Seq<RouteModel>)
    requires
        route_names_distinct(a),
        route_names_distinct(b),
    ensures
        routes_by_name(a) == routes_by_name(b) <==> a.to_multiset() == b.to_multiset(),
{
    broadcast use vstd::seq_lib::group_to_multiset_ensures;

    lemma_routes_by_name_lookup(a);
    lemma_routes_by_name_lookup(b);
    lemma_routes_by_name_sorted(a);
    lemma_routes_by_name_sorted(b);
    assert forall|i: int, j: int| 0 <= i < a.len() && 0 <= j < a.len() && i != j implies a[i]
        != a[j] by {
        assert(a[i].name != a[j].name);
    }
    assert forall|i: int, j: int| 0 <= i < b.len() && 0 <= j < b.len() && i != j implies b[i]
        != b[j] by {
        assert(b[i].name != b[j].name);
    }
    assert(a.no_duplicates());
    assert(b.no_duplicates());
    a.lemma_multiset_has_no_duplicates();
    b.lemma_multiset_has_no_duplicates();
    if routes_by_name(a) == routes_by_name(b) {
        assert forall|r: RouteModel| a.to_multiset().count(r) == b.to_multiset().count(r) by {
            if a.contains(r) {
                assert(lookup(routes_by_name(b), r.name) == Some(r));
                assert(b.contains(r));
            }
            if b.contains(r) {
                assert(lookup(routes_by_name(a), r.name) == Some(r));
                assert(a.contains(r));
            }
        }
        assert(a.to_multiset() =~= b.to_multiset());
    }
    if a.to_multiset() == b.to_multiset() {
        assert forall|n: Seq<char>| #[trigger] lookup(routes_by_name(a), n) == lookup(
            routes_by_name(b),
            n,
        ) by {
            match lookup(routes_by_name(a), n) {
                Some(r) => {
                    assert(a.contains(r));
                    assert(a.to_multiset().count(r) > 0);
                    assert(b.contains(r));
                    assert(lookup(routes_by_name(b), r.name) == Some(r));
                },
                None => {
                    match lookup(routes_by_name(b), n) {
                        Some(r) => {
                            assert(b.contains(r));
                            assert(b.to_multiset().count(r) > 0);
                            assert(a.contains(r));
                            assert(lookup(routes_by_name(a), r.name) == Some(r));
                        },
                        None => {},
                    }
                },
            }
        }
        lemma_sorted_equal::<String, RouteModel>(routes_by_name(a), routes_by_name(b));
    }
}

/// No route at or after `from` has a problem when the first such problem is
/// absent.
proof fn lemma_no_route_problem_from(c: ConfigModel, from: int)
    requires
        0 <= from,
        first_route_problem(c, from) is None,
    ensures
        forall|i: int| from <= i < c.routes.len() ==> #[trigger] route_problem(c, i) is None,
    decreases c.routes.len() - from,
{
    if from < c.routes.len() {
        lemma_no_route_problem_from(c, from + 1);
    }
}

/// A valid configuration names each route once.
pub proof fn lemma_valid_route_names_distinct(c: ConfigModel)
    requires
        config_valid(c),
    ensures
        route_names_distinct(c.routes),
{
    if c.routes.len() > 0 {
        lemma_no_route_problem_from(c, 0);
    }
    assert forall|i: int, j: int|
        0 <= i < c.routes.len() && 0 <= j < c.routes.len() && i != j implies #[trigger] c.routes[i].name
        != #[trigger] c.routes[j].name by {
        assert(route_problem(c, i) is None);
        assert(route_problem(c, j) is None);
        if i < j {
            assert(!name_seen_before(c.routes, j));
        } else {
            assert(!name_seen_before(c.routes, i));
        }
    }
}

/// Where route names are distinct on each side, a diff is empty exactly when
/// the configurations are equal up to the order of their routes.
pub proof fn law_empty_iff_same_configuration(a: ConfigModel, b: ConfigModel)
    requires
        sorted::<String, UpstreamModel>(a.upstreams),
        sorted::<String, UpstreamModel>(b.upstreams),
        route_names_distinct(a.routes),
        route_names_distinct(b.routes),
    ensures
        diff_is_empty(diff_of(a, b)) <==> (a.server == b.server && a.admin == b.admin
            && a.upstreams == b.upstreams && a.routes.to_multiset() == b.routes.to_multiset()),
{
    law_empty_iff_same_by_name(a, b);
    law_same_by_name_iff_same_routes(a.routes, b.routes);
}

} // verus!
