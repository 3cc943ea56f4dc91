//! A keyword-based redirect and dispatch resolver: a free-text query is
//! matched against a configurable keyword table, yielding either an external
//! redirect template or a local program to run, together with the residual
//! arguments of the query.

use vstd::map::*;
use vstd::prelude::*;

pub mod config;
pub mod error;
pub mod index;
pub mod routes;
pub mod store;
pub mod template_args;

use crate::config::Config;
use crate::config::Route;
use crate::config::RouteGroup;
use crate::index::RouteIndex;
use crate::routes::opt_str_view;
use crate::routes::resolve_hop;
use crate::routes::spec_resolve;
use crate::routes::RouteResolution;
use crate::store::SnapshotStore;

verus! {

/// The keyword-to-route map described by an ordered sequence of groups:
/// groups are merged in order, and groups later in the order win conflicts.
pub open spec fn flatten_groups(groups: Seq<RouteGroup>) -> Map<Seq<char>, Route>
    decreases groups.len(),
{
    if groups.len() == 0 {
        Map::empty()
    } else {
        flatten_groups(groups.drop_last()).union_prefer_right(groups.last().routes@)
    }
}

/// Generates a flattened mapping of routes from the grouped structure
/// described by the configuration file. Later groups win keyword conflicts.
pub fn cache_routes(groups: &Vec<RouteGroup>) -> (r: RouteIndex)
    ensures
        r@ == flatten_groups(groups@),
{
    let mut index = RouteIndex::new();
    let mut g: usize = 0;
    proof {
        assert(groups@.subrange(0, 0) =~= Seq::<RouteGroup>::empty());
    }
    while g < groups.len()
        invariant
            0 <= g <= groups@.len(),
            index@ == flatten_groups(groups@.subrange(0, g as int)),
        decreases groups@.len() - g,
    {
        index.extend_from_group(&groups[g]);
        proof {
            assert(groups@.subrange(0, g as int + 1).drop_last() =~= groups@.subrange(0, g as int));
            assert(groups@.subrange(0, g as int + 1).last() == groups@[g as int]);
        }
        g += 1;
    }
    proof {
        assert(groups@.subrange(0, groups@.len() as int) =~= groups@);
    }
    index
}

/// Merging exactly two groups yields the union of their keyword mappings,
/// with the later group winning any shared keyword and the earlier group's
/// other keywords preserved.
pub proof fn lemma_flatten_two_groups(g1: RouteGroup, g2: RouteGroup)
    ensures
        flatten_groups(seq![g1, g2]) == g1.routes@.union_prefer_right(g2.routes@),
        forall|k: Seq<char>|
            flatten_groups(seq![g1, g2]).contains_key(k) <==> (g1.routes@.contains_key(k)
                || g2.routes@.contains_key(k)),
        forall|k: Seq<char>| #[trigger]
            g2.routes@.contains_key(k) ==> flatten_groups(seq![g1, g2])[k] == g2.routes@[k],
        forall|k: Seq<char>| #[trigger]
            g1.routes@.contains_key(k) && !g2.routes@.contains_key(k) ==> flatten_groups(
                seq![g1, g2],
            )[k] == g1.routes@[k],
{
    reveal_with_fuel(flatten_groups, 3);
    let pair = seq![g1, g2];
    assert(pair.drop_last() =~= seq![g1]);
    assert(seq![g1].drop_last() =~= Seq::<RouteGroup>::empty());
    assert(flatten_groups(Seq::<RouteGroup>::empty()) == Map::<Seq<char>, Route>::empty());
    assert(flatten_groups(seq![g1]) == Map::<Seq<char>, Route>::empty().union_prefer_right(
        g1.routes@,
    ));
    assert_maps_equal!(
        Map::<Seq<char>, Route>::empty().union_prefer_right(g1.routes@),
        g1.routes@
    );
    assert(flatten_groups(pair) == flatten_groups(pair.drop_last()).union_prefer_right(g2.routes@));
}

/// Dynamic variables that either need to be present at runtime, or can be
/// changed during runtime: the public address, the default route, the
/// configured groups, and the flattened keyword index derived from them.
#[derive(Clone)]
pub struct State {
    pub public_address: String,
    pub default_route: Option<String>,
    pub groups: Vec<RouteGroup>,
    /// Cached, flattened mapping of all routes and their destinations.
    pub routes: RouteIndex,
}

/// The invariant every published snapshot satisfies: the flattened index is
/// exactly the result of flattening the groups, so the two never diverge.
pub open spec fn snapshot_consistent(s: State) -> bool {
    s.routes@ == flatten_groups(s.groups@)
}

/// Builds the snapshot value for a freshly loaded configuration: the
/// flattened index is derived from the configuration's groups.
pub fn state_from_config(config: Config) -> (s: State)
    ensures
        s.public_address == config.public_address,
        s.default_route == config.default_route,
        s.groups == config.groups,
        s.routes@ == flatten_groups(config.groups@),
        snapshot_consistent(s),
{
    let Config { bind_address: _, public_address, default_route, groups } = config;
    let routes = cache_routes(&groups);
    State { public_address, default_route, groups, routes }
}

/// The reaction to a successful configuration reload: a snapshot is derived
/// from the freshly loaded configuration and published wholesale. On a load
/// failure the caller never reaches this point, so the previously published
/// snapshot stays active unchanged.
pub fn install_config(store: &SnapshotStore, config: Config) {
    store.publish(state_from_config(config));
}

/// Reads the current snapshot and resolves `query` against it: the pair of
/// the snapshot that was consulted and the outcome of matching the query
/// against that snapshot's index and default route.
pub fn resolve_current(store: &SnapshotStore, query: &str) -> (r: (State, RouteResolution))
    ensures
        snapshot_consistent(r.0),
        match r.1 {
            RouteResolution::Resolved { route, args } => spec_resolve(
                query@,
                r.0.routes@,
                opt_str_view(r.0.default_route),
            ) == Some((route, args@)),
            RouteResolution::Unresolved => spec_resolve(
                query@,
                r.0.routes@,
                opt_str_view(r.0.default_route),
            ) is None,
        },
{
    let snapshot = store.current();
    let resolution = resolve_hop(query, &snapshot.routes, &snapshot.default_route);
    (snapshot, resolution)
}

} // verus!

