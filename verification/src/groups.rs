//! Upstreams gathered by host, and the ordered routes that they make.

use vstd::prelude::*;

use crate::routes::{addresses, route_models, Route, RouteModel, Upstream};
use crate::text::{ascending, is_before, same_text, text_before};

verus! {

/// The upstreams of each host, in the order in which they came; hosts ascend.
pub struct HostGroups {
    routes: Vec<Route>,
}

/// Groups by their contents: the addresses of each host.
pub type GroupsModel = Map<Seq<char>, Seq<Seq<char>>>;

/// The hosts of `routes`, in order.
pub open spec fn hosts(routes: Seq<RouteModel>) -> Seq<Seq<char>> {
    Seq::new(routes.len(), |i: int| routes[i].host)
}

spec fn groups_model(routes: Seq<RouteModel>) -> GroupsModel {
    Map::new(
        |h: Seq<char>| hosts(routes).contains(h),
        |h: Seq<char>| routes[hosts(routes).index_of(h)].upstreams,
    )
}

impl View for HostGroups {
    type V = GroupsModel;

    closed spec fn view(&self) -> GroupsModel {
        groups_model(route_models(self.routes@))
    }
}

/// `groups` with `upstreams` put behind those of `host`.
pub open spec fn extended(
    groups: GroupsModel,
    host: Seq<char>,
    upstreams: Seq<Seq<char>>,
) -> GroupsModel {
    groups.insert(
        host,
        if groups.contains_key(host) {
            groups[host] + upstreams
        } else {
            upstreams
        },
    )
}

/// Whether `sorted` lists what `all` holds, each text once, in ascending order.
pub open spec fn lists(sorted: Seq<Seq<char>>, all: Seq<Seq<char>>) -> bool {
    &&& ascending(sorted)
    &&& forall|a: Seq<char>| #[trigger] sorted.contains(a) <==> all.contains(a)
}

/// Whether `routes` are the routes of `groups`: one for each host, hosts ascending, the
/// addresses of each host listed once, in ascending order.
pub open spec fn routes_of(routes: Seq<RouteModel>, groups: GroupsModel) -> bool {
    &&& ascending(hosts(routes))
    &&& forall|h: Seq<char>| #[trigger] hosts(routes).contains(h) <==> groups.contains_key(h)
    &&& forall|i: int|
        0 <= i < routes.len() ==> lists((#[trigger] routes[i]).upstreams, groups[routes[i].host])
}

proof fn lemma_group_at(routes: Seq<RouteModel>, i: int)
    requires
        ascending(hosts(routes)),
        0 <= i < routes.len(),
    ensures
        groups_model(routes).contains_key(routes[i].host),
        groups_model(routes)[routes[i].host] == routes[i].upstreams,
{
    let names = hosts(routes);
    assert(names[i] == routes[i].host);
    assert(names.contains(names[i]));
    let k = names.index_of(names[i]);
    assert(0 <= k < names.len() && names[k] == names[i]);
    crate::text::text_before_irreflexive(names[i]);
    if k < i {
        assert(text_before(names[k], names[i]));
    } else if i < k {
        assert(text_before(names[i], names[k]));
    }
}

impl HostGroups {
    #[verifier::type_invariant]
    spec fn wf(&self) -> bool {
        ascending(hosts(route_models(self.routes@)))
    }

    /// No hosts.
    pub fn new() -> (r: HostGroups)
        ensures
            r@ == Map::<Seq<char>, Seq<Seq<char>>>::empty(),
    {
        let r = HostGroups { routes: Vec::new() };
        assert(r@ =~= Map::<Seq<char>, Seq<Seq<char>>>::empty());
        r
    }

    /// Puts `upstreams` behind those of `host`, which is known from then on even without any.
    pub fn extend(&mut self, host: String, upstreams: Vec<Upstream>)
        ensures
            final(self)@ == extended(old(self)@, host@, addresses(upstreams@)),
    {
        proof {
            use_type_invariant(&*self);
        }
        let mut more = upstreams;
        let mut routes: Vec<Route> = Vec::new();
        std::mem::swap(&mut routes, &mut self.routes);
        let ghost before = route_models(routes@);
        let ghost h = host@;
        let ghost added = addresses(more@);
        let mut i: usize = 0;
        while i < routes.len() && is_before(routes[i].host.as_str(), host.as_str())
            invariant
                0 <= i <= routes@.len(),
                before == route_models(routes@),
                h == host@,
                forall|j: int| 0 <= j < i ==> text_before(#[trigger] hosts(before)[j], h),
            decreases routes@.len() - i,
        {
            assert(hosts(before)[i as int] == routes@[i as int].host@);
            i = i + 1;
        }
        if i < routes.len() && same_text(routes[i].host.as_str(), host.as_str()) {
            routes[i].upstreams.append(&mut more);
            proof {
                let after = route_models(routes@);
                assert(hosts(after) =~= hosts(before));
                assert(after[i as int].upstreams =~= before[i as int].upstreams + added);
                lemma_group_at(before, i as int);
                assert(before[i as int].host == h);
                assert forall|g: Seq<char>| #[trigger]
                    hosts(before).contains(g) implies groups_model(after)[g] == extended(
                    groups_model(before),
                    h,
                    added,
                )[g] by {
                    let k = hosts(before).index_of(g);
                    lemma_group_at(before, k);
                    lemma_group_at(after, k);
                    if k == i {
                    } else {
                        assert(before[k] == after[k]);
                        if g == h {
                            crate::text::text_before_irreflexive(g);
                            assert(hosts(before)[k] == hosts(before)[i as int]);
                        }
                    }
                }
                assert(groups_model(after) =~= extended(groups_model(before), h, added));
            }
        } else {
            proof {
                assert forall|j: int| i <= j < before.len() implies text_before(
                    h,
                    #[trigger] hosts(before)[j],
                ) by {
                    assert(hosts(before)[i as int] == routes@[i as int].host@);
                    crate::text::text_before_total(h, hosts(before)[i as int]);
                    if j > i {
                        assert(text_before(hosts(before)[i as int], hosts(before)[j]));
                        crate::text::text_before_transitive(
                            h,
                            hosts(before)[i as int],
                            hosts(before)[j],
                        );
                    }
                }
            }
            routes.insert(i, Route { host, upstreams: more });
            proof {
                let after = route_models(routes@);
                let entry = RouteModel { host: h, upstreams: added };
                assert(after =~= before.insert(i as int, entry));
                assert(hosts(after) =~= hosts(before).insert(i as int, h));
                assert forall|a: int, b: int| 0 <= a < b < after.len() implies text_before(
                    #[trigger] hosts(after)[a],
                    #[trigger] hosts(after)[b],
                ) by {
                    if b < i {
                        assert(text_before(hosts(before)[a], hosts(before)[b]));
                    } else if b == i {
                        assert(text_before(hosts(before)[a], h));
                    } else if a == i {
                        assert(text_before(h, hosts(before)[b - 1]));
                    } else if a < i {
                        assert(text_before(hosts(before)[a], hosts(before)[b - 1]));
                    } else {
                        assert(text_before(hosts(before)[a - 1], hosts(before)[b - 1]));
                    }
                }
                assert(!hosts(before).contains(h)) by {
                    crate::text::text_before_irreflexive(h);
                    if hosts(before).contains(h) {
                        let k = hosts(before).index_of(h);
                        assert(hosts(before)[k] == h);
                    }
                }
                assert forall|g: Seq<char>| #[trigger] hosts(after).contains(g) <==> (hosts(
                    before,
                ).contains(g) || g == h) by {
                    if hosts(after).contains(g) {
                        let k = hosts(after).index_of(g);
                        if k < i {
                            assert(hosts(before)[k] == g);
                        } else if k > i {
                            assert(hosts(before)[k - 1] == g);
                        }
                    }
                    if hosts(before).contains(g) {
                        let k = hosts(before).index_of(g);
                        if k < i {
                            assert(hosts(after)[k] == g);
                        } else {
                            assert(hosts(after)[k + 1] == g);
                        }
                    }
                    assert(hosts(after)[i as int] == h);
                }
                assert forall|g: Seq<char>| #[trigger]
                    hosts(after).contains(g) implies groups_model(after)[g] == extended(
                    groups_model(before),
                    h,
                    added,
                )[g] by {
                    let k = hosts(after).index_of(g);
                    lemma_group_at(after, k);
                    if k < i {
                        lemma_group_at(before, k);
                    } else if k > i {
                        lemma_group_at(before, k - 1);
                    }
                }
                assert(groups_model(after) =~= extended(groups_model(before), h, added));
            }
        }
        self.routes = routes;
    }
}

/// The addresses of `upstreams`, each once, in ascending order.
fn sorted_upstreams(upstreams: Vec<Upstream>) -> (r: Vec<Upstream>)
    ensures
        lists(addresses(r@), addresses(upstreams@)),
{
    let ghost all = addresses(upstreams@);
    let mut r: Vec<Upstream> = Vec::new();
    for upstream in it: upstreams
        invariant
            all == addresses(it.seq()),
            lists(addresses(r@), all.take(it.index() as int)),
    {
        let ghost n = it.index() as int;
        let ghost before = addresses(r@);
        let ghost x = upstream.addr@;
        assert(all[n] == x);
        assert(all.take(n + 1) =~= all.take(n).push(x));
        let mut i: usize = 0;
        while i < r.len() && is_before(r[i].addr.as_str(), upstream.addr.as_str())
            invariant
                0 <= i <= r@.len(),
                before == addresses(r@),
                x == upstream.addr@,
                forall|j: int| 0 <= j < i ==> text_before(#[trigger] before[j], x),
            decreases r@.len() - i,
        {
            assert(before[i as int] == r@[i as int].addr@);
            i = i + 1;
        }
        if i < r.len() && same_text(r[i].addr.as_str(), upstream.addr.as_str()) {
            assert(before[i as int] == x);
            assert forall|a: Seq<char>| #[trigger] before.contains(a) <==> all.take(
                n + 1,
            ).contains(a) by {
                lemma_push_contains(all.take(n), x, a);
            }
        } else {
            proof {
                assert forall|j: int| i <= j < before.len() implies text_before(
                    x,
                    #[trigger] before[j],
                ) by {
                    assert(before[i as int] == r@[i as int].addr@);
                    crate::text::text_before_total(x, before[i as int]);
                    if j > i {
                        assert(text_before(before[i as int], before[j]));
                        crate::text::text_before_transitive(x, before[i as int], before[j]);
                    }
                }
            }
            r.insert(i, upstream);
            proof {
                let after = addresses(r@);
                assert(after =~= before.insert(i as int, x));
                assert forall|a: int, b: int| 0 <= a < b < after.len() implies text_before(
                    #[trigger] after[a],
                    #[trigger] after[b],
                ) by {
                    if b < i {
                        assert(text_before(before[a], before[b]));
                    } else if b == i {
                        assert(text_before(before[a], x));
                    } else if a == i {
                        assert(text_before(x, before[b - 1]));
                    } else if a < i {
                        assert(text_before(before[a], before[b - 1]));
                    } else {
                        assert(text_before(before[a - 1], before[b - 1]));
                    }
                }
                assert forall|a: Seq<char>| #[trigger] after.contains(a) <==> all.take(
                    n + 1,
                ).contains(a) by {
                    lemma_push_contains(all.take(n), x, a);
                    if after.contains(a) {
                        let k = after.index_of(a);
                        if k < i {
                            assert(before[k] == a);
                        } else if k > i {
                            assert(before[k - 1] == a);
                        }
                    }
                    if before.contains(a) {
                        let k = before.index_of(a);
                        if k < i {
                            assert(after[k] == a);
                        } else {
                            assert(after[k + 1] == a);
                        }
                    }
                    assert(after[i as int] == x);
                }
            }
        }
    }
    assert(all.take(all.len() as int) =~= all);
    r
}

proof fn lemma_push_contains(s: Seq<Seq<char>>, x: Seq<char>, a: Seq<char>)
    ensures
        s.push(x).contains(a) <==> s.contains(a) || a == x,
{
    let t = s.push(x);
    if s.contains(a) {
        let k = s.index_of(a);
        assert(t[k] == a);
    }
    assert(t[s.len() as int] == x);
    if t.contains(a) {
        let k = t.index_of(a);
        if k < s.len() {
            assert(s[k] == a);
        }
    }
}

/// The routes of `groups`.
pub fn grouped_routes(groups: HostGroups) -> (r: Vec<Route>)
    ensures
        routes_of(route_models(r@), groups@),
{
    proof {
        use_type_invariant(&groups);
    }
    let ghost before = route_models(groups.routes@);
    let ghost model = groups@;
    let mut r: Vec<Route> = Vec::new();
    for route in it: groups.routes
        invariant
            before == route_models(it.seq()),
            r@.len() == it.index(),
            forall|i: int|
                0 <= i < it.index() ==> {
                    &&& (#[trigger] route_models(r@)[i]).host == before[i].host
                    &&& lists(route_models(r@)[i].upstreams, before[i].upstreams)
                },
    {
        let ghost n = it.index() as int;
        let ghost done = route_models(r@);
        assert(before[n] == route@);
        let upstreams = sorted_upstreams(route.upstreams);
        r.push(Route { host: route.host, upstreams });
        assert forall|i: int| 0 <= i < n + 1 implies {
            &&& (#[trigger] route_models(r@)[i]).host == before[i].host
            &&& lists(route_models(r@)[i].upstreams, before[i].upstreams)
        } by {
            if i < n {
                assert(route_models(r@)[i] == done[i]);
            }
        }
    }
    proof {
        let after = route_models(r@);
        assert(hosts(after) =~= hosts(before));
        assert forall|i: int| 0 <= i < after.len() implies lists(
            (#[trigger] after[i]).upstreams,
            model[after[i].host],
        ) by {
            lemma_group_at(before, i);
        }
    }
    r
}

// ---------------------------------------------------------------------------------------------
// Claims
// ---------------------------------------------------------------------------------------------

/// What workloads claim, one place for each: a host with the upstreams that the workload adds to
/// it, or nothing.
pub type Claims = Seq<Option<RouteModel>>;

/// Whether a workload claims the host `h`.
pub open spec fn claims_host(claim: Option<RouteModel>, h: Seq<char>) -> bool {
    claim is Some && claim->0.host == h
}

/// Whether a workload adds the address `a` to the host `h`.
pub open spec fn claims_address(claim: Option<RouteModel>, h: Seq<char>, a: Seq<char>) -> bool {
    claims_host(claim, h) && claim->0.upstreams.contains(a)
}

/// Whether `routes` are the routes of `claims`: one for each claimed host, hosts ascending; the
/// addresses of a host are those that some workload adds to it, each once, ascending.
pub open spec fn routes_match(routes: Seq<RouteModel>, claims: Claims) -> bool {
    &&& ascending(hosts(routes))
    &&& forall|h: Seq<char>| #[trigger]
        hosts(routes).contains(h) <==> exists|j: int|
            0 <= j < claims.len() && claims_host(#[trigger] claims[j], h)
    &&& forall|i: int|
        0 <= i < routes.len() ==> {
            &&& ascending((#[trigger] routes[i]).upstreams)
            &&& forall|a: Seq<char>| #[trigger]
                routes[i].upstreams.contains(a) <==> exists|j: int|
                    0 <= j < claims.len() && claims_address(
                        #[trigger] claims[j],
                        routes[i].host,
                        a,
                    )
        }
}

/// The groups that `claims` make, read in order.
pub open spec fn groups_of(claims: Claims) -> GroupsModel
    decreases claims.len(),
{
    if claims.len() == 0 {
        Map::empty()
    } else {
        let before = groups_of(claims.drop_last());
        match claims.last() {
            None => before,
            Some(claim) => extended(before, claim.host, claim.upstreams),
        }
    }
}

proof fn lemma_groups_of(claims: Claims, h: Seq<char>)
    ensures
        groups_of(claims).contains_key(h) <==> exists|j: int|
            0 <= j < claims.len() && claims_host(#[trigger] claims[j], h),
        groups_of(claims).contains_key(h) ==> forall|a: Seq<char>| #[trigger]
            groups_of(claims)[h].contains(a) <==> exists|j: int|
                0 <= j < claims.len() && claims_address(#[trigger] claims[j], h, a),
    decreases claims.len(),
{
    if claims.len() > 0 {
        let init = claims.drop_last();
        let n = claims.len() - 1;
        let before = groups_of(init);
        lemma_groups_of(init, h);
        assert((exists|j: int| 0 <= j < init.len() && claims_host(#[trigger] init[j], h))
            || claims_host(claims[n], h) <==> exists|j: int|
            0 <= j < claims.len() && claims_host(#[trigger] claims[j], h)) by {
            if exists|j: int| 0 <= j < init.len() && claims_host(#[trigger] init[j], h) {
                let j = choose|j: int| 0 <= j < init.len() && claims_host(#[trigger] init[j], h);
                assert(claims_host(claims[j], h));
            }
            if exists|j: int| 0 <= j < claims.len() && claims_host(#[trigger] claims[j], h) {
                let j = choose|j: int|
                    0 <= j < claims.len() && claims_host(#[trigger] claims[j], h);
                if j < n {
                    assert(claims_host(init[j], h));
                }
            }
        }
        if groups_of(claims).contains_key(h) {
            assert forall|a: Seq<char>| #[trigger] groups_of(claims)[h].contains(a) <==> exists|
                j: int,
            | 0 <= j < claims.len() && claims_address(#[trigger] claims[j], h, a) by {
                if exists|j: int| 0 <= j < init.len() && claims_address(#[trigger] init[j], h, a) {
                    let j = choose|j: int|
                        0 <= j < init.len() && claims_address(#[trigger] init[j], h, a);
                    assert(claims_address(claims[j], h, a));
                    assert(claims_host(init[j], h));
                }
                if exists|j: int| 0 <= j < claims.len() && claims_address(
                    #[trigger] claims[j],
                    h,
                    a,
                ) {
                    let j = choose|j: int|
                        0 <= j < claims.len() && claims_address(#[trigger] claims[j], h, a);
                    if j < n {
                        assert(claims_address(init[j], h, a));
                    }
                }
                if claims_host(claims[n], h) && before.contains_key(h) {
                    lemma_concat_contains(before[h], claims[n]->0.upstreams, a);
                }
                if before.contains_key(h) {
                    assert(before[h].contains(a) <==> exists|j: int|
                        0 <= j < init.len() && claims_address(#[trigger] init[j], h, a));
                }
            }
        }
    }
}

proof fn lemma_concat_contains(s: Seq<Seq<char>>, t: Seq<Seq<char>>, a: Seq<char>)
    ensures
        (s + t).contains(a) <==> s.contains(a) || t.contains(a),
{
    let u = s + t;
    if s.contains(a) {
        assert(u[s.index_of(a)] == a);
    }
    if t.contains(a) {
        assert(u[s.len() + t.index_of(a)] == a);
    }
    if u.contains(a) {
        let k = u.index_of(a);
        if k < s.len() {
            assert(s[k] == a);
        } else {
            assert(t[k - s.len()] == a);
        }
    }
}

/// The routes of the groups that `claims` make are the routes of `claims`.
pub proof fn grouping_matches_claims(routes: Seq<RouteModel>, claims: Claims)
    requires
        routes_of(routes, groups_of(claims)),
    ensures
        routes_match(routes, claims),
{
    assert forall|h: Seq<char>| #[trigger] hosts(routes).contains(h) <==> exists|j: int|
        0 <= j < claims.len() && claims_host(#[trigger] claims[j], h) by {
        lemma_groups_of(claims, h);
    }
    assert forall|i: int| 0 <= i < routes.len() implies {
        &&& ascending((#[trigger] routes[i]).upstreams)
        &&& forall|a: Seq<char>| #[trigger]
            routes[i].upstreams.contains(a) <==> exists|j: int|
                0 <= j < claims.len() && claims_address(#[trigger] claims[j], routes[i].host, a)
    } by {
        let h = routes[i].host;
        assert(hosts(routes)[i] == h);
        assert(hosts(routes).contains(h));
        lemma_groups_of(claims, h);
        assert(lists(routes[i].upstreams, groups_of(claims)[h]));
    }
}

/// Routes depend only on what is claimed: neither on the order of the claims nor on how often
/// one is made.
pub proof fn routes_ignore_order(
    a: Seq<RouteModel>,
    claims_a: Claims,
    b: Seq<RouteModel>,
    claims_b: Claims,
)
    requires
        routes_match(a, claims_a),
        routes_match(b, claims_b),
        forall|c: RouteModel| claims_a.contains(Some(c)) <==> claims_b.contains(Some(c)),
    ensures
        a == b,
{
    assert forall|h: Seq<char>| hosts(a).contains(h) <==> hosts(b).contains(h) by {
        if hosts(a).contains(h) {
            lemma_same_hosts(claims_a, claims_b, h);
        }
        if hosts(b).contains(h) {
            lemma_same_hosts(claims_b, claims_a, h);
        }
    }
    crate::text::ascending_unique(hosts(a), hosts(b));
    assert(a.len() == hosts(a).len() && b.len() == hosts(b).len());
    assert forall|i: int| 0 <= i < a.len() implies a[i] == b[i] by {
        let h = a[i].host;
        assert(hosts(a)[i] == h && hosts(b)[i] == b[i].host);
        assert forall|x: Seq<char>| a[i].upstreams.contains(x) <==> b[i].upstreams.contains(x) by {
            if a[i].upstreams.contains(x) {
                lemma_same_addresses(claims_a, claims_b, h, x);
            }
            if b[i].upstreams.contains(x) {
                lemma_same_addresses(claims_b, claims_a, h, x);
            }
        }
        crate::text::ascending_unique(a[i].upstreams, b[i].upstreams);
    }
    assert(a =~= b);
}

proof fn lemma_same_hosts(a: Claims, b: Claims, h: Seq<char>)
    requires
        forall|c: RouteModel| a.contains(Some(c)) ==> b.contains(Some(c)),
        exists|j: int| 0 <= j < a.len() && claims_host(#[trigger] a[j], h),
    ensures
        exists|j: int| 0 <= j < b.len() && claims_host(#[trigger] b[j], h),
{
    let j = choose|j: int| 0 <= j < a.len() && claims_host(#[trigger] a[j], h);
    assert(a.contains(Some(a[j]->0)));
    let k = b.index_of(a[j]);
    assert(claims_host(b[k], h));
}

proof fn lemma_same_addresses(a: Claims, b: Claims, h: Seq<char>, x: Seq<char>)
    requires
        forall|c: RouteModel| a.contains(Some(c)) ==> b.contains(Some(c)),
        exists|j: int| 0 <= j < a.len() && claims_address(#[trigger] a[j], h, x),
    ensures
        exists|j: int| 0 <= j < b.len() && claims_address(#[trigger] b[j], h, x),
{
    let j = choose|j: int| 0 <= j < a.len() && claims_address(#[trigger] a[j], h, x);
    assert(a.contains(Some(a[j]->0)));
    let k = b.index_of(a[j]);
    assert(claims_address(b[k], h, x));
}

/// Whether every claimed host stands in the form in which hosts are compared.
pub open spec fn hosts_normalized(claims: Claims) -> bool {
    forall|j: int|
        0 <= j < claims.len() && (#[trigger] claims[j]) is Some ==> crate::routes::normalized(
            claims[j]->0.host,
        ) == Ok::<Seq<char>, crate::routes::RouteErrorModel>(claims[j]->0.host)
}

/// A table accepts the routes of claims on normalized hosts. It then knows the claimed hosts and
/// no others, each with the upstreams of its route, starting with the first.
pub proof fn table_accepts_claimed_routes(routes: Seq<RouteModel>, claims: Claims)
    requires
        routes_match(routes, claims),
        hosts_normalized(claims),
    ensures
        crate::routes::table_of(routes) is Ok,
        forall|h: Seq<char>| #[trigger]
            crate::routes::table_of(routes)->Ok_0.contains_key(h) <==> hosts(routes).contains(h),
        forall|i: int|
            0 <= i < routes.len() ==> crate::routes::table_of(routes)->Ok_0[(
            #[trigger] routes[i]).host] == (crate::routes::RouteEntry {
                upstreams: routes[i].upstreams,
                next: 0,
            }),
{
    assert forall|i: int| 0 <= i < routes.len() implies crate::routes::normalized(
        (#[trigger] routes[i]).host,
    ) == Ok::<Seq<char>, crate::routes::RouteErrorModel>(routes[i].host) by {
        assert(hosts(routes)[i] == routes[i].host);
        assert(hosts(routes).contains(routes[i].host));
        let j = choose|j: int|
            0 <= j < claims.len() && claims_host(#[trigger] claims[j], routes[i].host);
        assert(claims[j] is Some);
    }
    crate::routes::replace_accepts_valid_hosts(routes);
    let table = crate::routes::table_of(routes)->Ok_0;
    assert forall|i: int| 0 <= i < routes.len() implies crate::routes::last_for(
        routes,
        i,
        (#[trigger] routes[i]).host,
    ) by {
        assert forall|j: int| i < j < routes.len() implies crate::routes::normalized(
            (#[trigger] routes[j]).host,
        ) != Ok::<Seq<char>, crate::routes::RouteErrorModel>(routes[i].host) by {
            assert(text_before(hosts(routes)[i], hosts(routes)[j]));
            crate::text::text_before_irreflexive(routes[i].host);
        }
    }
    assert forall|h: Seq<char>| #[trigger] table.contains_key(h) <==> hosts(routes).contains(h) by {
        crate::routes::replace_keeps_last_route(routes, table, h);
        if table.contains_key(h) {
            let i = choose|i: int| #[trigger] crate::routes::last_for(routes, i, h);
            assert(hosts(routes)[i] == h);
        }
        if hosts(routes).contains(h) {
            let i = hosts(routes).index_of(h);
            assert(crate::routes::last_for(routes, i, routes[i].host));
        }
    }
    assert forall|i: int| 0 <= i < routes.len() implies table[(#[trigger] routes[i]).host] == (
    crate::routes::RouteEntry { upstreams: routes[i].upstreams, next: 0 }) by {
        crate::routes::replace_keeps_last_route(routes, table, routes[i].host);
        assert(crate::routes::last_for(routes, i, routes[i].host));
    }
}

// ---------------------------------------------------------------------------------------------
// Laws of routes and claims
// ---------------------------------------------------------------------------------------------

/// Every claim is routed: there is a route for its host, which holds every address of the claim.
pub proof fn every_claim_is_routed(routes: Seq<RouteModel>, claims: Claims, j: int) -> (i: int)
    requires
        routes_match(routes, claims),
        0 <= j < claims.len(),
        claims[j] is Some,
    ensures
        0 <= i < routes.len(),
        routes[i].host == claims[j]->0.host,
        forall|k: int|
            0 <= k < claims[j]->0.upstreams.len() ==> routes[i].upstreams.contains(
                #[trigger] claims[j]->0.upstreams[k],
            ),
{
    let h = claims[j]->0.host;
    assert(claims_host(claims[j], h));
    assert(hosts(routes).contains(h));
    let i = hosts(routes).index_of(h);
    assert(routes[i].host == h);
    assert forall|k: int| 0 <= k < claims[j]->0.upstreams.len() implies routes[i].upstreams.contains(
        #[trigger] claims[j]->0.upstreams[k],
    ) by {
        assert(claims_address(claims[j], h, claims[j]->0.upstreams[k]));
    }
    i
}

/// Every route is claimed: some claim is for its host.
pub proof fn every_route_is_claimed(routes: Seq<RouteModel>, claims: Claims, i: int) -> (j: int)
    requires
        routes_match(routes, claims),
        0 <= i < routes.len(),
    ensures
        0 <= j < claims.len(),
        claims[j] is Some,
        claims[j]->0.host == routes[i].host,
{
    let h = routes[i].host;
    assert(hosts(routes)[i] == h);
    assert(hosts(routes).contains(h));
    choose|j: int| 0 <= j < claims.len() && claims_host(#[trigger] claims[j], h)
}

/// Every upstream of a route is claimed: some claim for its host holds the address.
pub proof fn every_upstream_is_claimed(
    routes: Seq<RouteModel>,
    claims: Claims,
    i: int,
    k: int,
) -> (j: int)
    requires
        routes_match(routes, claims),
        0 <= i < routes.len(),
        0 <= k < routes[i].upstreams.len(),
    ensures
        0 <= j < claims.len(),
        claims[j] is Some,
        claims[j]->0.host == routes[i].host,
        claims[j]->0.upstreams.contains(routes[i].upstreams[k]),
{
    let a = routes[i].upstreams[k];
    assert(routes[i].upstreams.contains(a));
    choose|j: int|
        0 <= j < claims.len() && claims_address(#[trigger] claims[j], routes[i].host, a)
}

/// Routes stand in the order of their hosts and upstreams in the order of their addresses, so no
/// host has two routes and no route has an address twice.
pub proof fn routes_stand_in_order(routes: Seq<RouteModel>, claims: Claims, i: int)
    requires
        routes_match(routes, claims),
        0 <= i < routes.len(),
    ensures
        forall|j: int| i < j < routes.len() ==> text_before(routes[i].host, (#[trigger] routes[j]).host),
        forall|j: int| i < j < routes.len() ==> routes[i].host != (#[trigger] routes[j]).host,
        forall|k: int, l: int|
            0 <= k < l < routes[i].upstreams.len() ==> text_before(
                #[trigger] routes[i].upstreams[k],
                #[trigger] routes[i].upstreams[l],
            ),
        routes[i].upstreams.no_duplicates(),
{
    let names = hosts(routes);
    assert forall|j: int| i < j < routes.len() implies text_before(
        routes[i].host,
        (#[trigger] routes[j]).host,
    ) && routes[i].host != routes[j].host by {
        assert(text_before(names[i], names[j]));
        crate::text::text_before_irreflexive(names[i]);
    }
    assert(ascending(routes[i].upstreams));
    assert forall|k: int, l: int|
        0 <= k < l < routes[i].upstreams.len() implies routes[i].upstreams[k]
        != routes[i].upstreams[l] by {
        crate::text::text_before_irreflexive(routes[i].upstreams[k]);
    }
}

/// Adding upstreams to a host puts them behind those that it has, makes it known, and changes no
/// other host.
pub proof fn groups_grow_by_host(
    groups: GroupsModel,
    host: Seq<char>,
    upstreams: Seq<Seq<char>>,
    other: Seq<char>,
)
    ensures
        ({
            let after = extended(groups, host, upstreams);
            &&& after.contains_key(host)
            &&& groups.contains_key(host) ==> after[host] == groups[host] + upstreams
            &&& !groups.contains_key(host) ==> after[host] == upstreams
            &&& other != host ==> (after.contains_key(other) <==> groups.contains_key(other))
            &&& other != host && groups.contains_key(other) ==> after[other] == groups[other]
        }),
{
}

/// The routes of groups: a route for each host that the groups know and no other, and in it the
/// addresses of the host and no others, each once, in order.
pub proof fn routes_of_groups(routes: Seq<RouteModel>, groups: GroupsModel, i: int, a: Seq<char>)
    requires
        routes_of(routes, groups),
        0 <= i < routes.len(),
    ensures
        groups.contains_key(routes[i].host),
        routes[i].upstreams.contains(a) <==> groups[routes[i].host].contains(a),
        routes[i].upstreams.no_duplicates(),
        forall|k: int, l: int|
            0 <= k < l < routes[i].upstreams.len() ==> text_before(
                #[trigger] routes[i].upstreams[k],
                #[trigger] routes[i].upstreams[l],
            ),
        forall|j: int| i < j < routes.len() ==> text_before(routes[i].host, (#[trigger] routes[j]).host),
{
    let names = hosts(routes);
    assert(names[i] == routes[i].host);
    assert(names.contains(routes[i].host));
    assert(lists(routes[i].upstreams, groups[routes[i].host]));
    assert forall|j: int| i < j < routes.len() implies text_before(
        routes[i].host,
        (#[trigger] routes[j]).host,
    ) by {
        assert(text_before(names[i], names[j]));
    }
    assert forall|k: int, l: int|
        0 <= k < l < routes[i].upstreams.len() implies routes[i].upstreams[k]
        != routes[i].upstreams[l] by {
        crate::text::text_before_irreflexive(routes[i].upstreams[k]);
    }
}

/// Each host that groups know has a route.
pub proof fn groups_are_routed(routes: Seq<RouteModel>, groups: GroupsModel, host: Seq<char>) -> (i:
    int)
    requires
        routes_of(routes, groups),
        groups.contains_key(host),
    ensures
        0 <= i < routes.len(),
        routes[i].host == host,
{
    assert(hosts(routes).contains(host));
    hosts(routes).index_of(host)
}

} // verus!
