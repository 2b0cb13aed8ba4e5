//! What a plan says of the repos it was made from, in terms of their nodes and of
//! the plan itself: which repos it lists, in which order, and for each of them
//! which modules and which manifest are to be bumped.
use vstd::prelude::*;

use crate::edge::{self, DepEdgeView};
use crate::graph::{self, NodeView, PlanItemView, WavePlanView};
use crate::text;
use crate::version;

verus! {

/// Is the node at `u` the last one of the repo with the key `k`?
pub open spec fn stands_for(ns: Seq<NodeView>, u: int, k: Seq<char>) -> bool {
    &&& 0 <= u < ns.len()
    &&& ns[u].repo.key() == k
    &&& forall|j: int| u < j < ns.len() ==> (#[trigger] ns[j]).repo.key() != k
}

/// Is `m` published by the repo with the key `k`: does the last node that
/// publishes `m` have it?
pub open spec fn is_published_by(ns: Seq<NodeView>, m: Seq<char>, k: Seq<char>) -> bool {
    exists|q: int|
        0 <= q < ns.len() && (#[trigger] ns[q]).published == Some(m) && ns[q].repo.key() == k
            && forall|j: int| q < j < ns.len() ==> (#[trigger] ns[j]).published != Some(m)
}

/// Does the node declare a dependency on `m`?
pub open spec fn consumes(n: NodeView, m: Seq<char>) -> bool {
    exists|e: int| 0 <= e < n.edges.len() && (#[trigger] n.edges[e]).module == m
}

/// Is the repo with the key `k` in the plan, be it as an item or in a cycle?
pub open spec fn is_listed(p: WavePlanView, k: Seq<char>) -> bool {
    p.cycle.contains(k) || exists|i: int|
        0 <= i < p.items.len() && (#[trigger] p.items[i]).repo.key() == k
}

/// Is a bump of `m` part of the plan: is `m` the bumped module, or published by a
/// repo in the plan?
pub open spec fn is_bumped(ns: Seq<NodeView>, root: Seq<char>, p: WavePlanView, m: Seq<char>) -> bool {
    m == root || exists|k: Seq<char>| #[trigger] is_published_by(ns, m, k) && is_listed(p, k)
}

/// Does the repo of the node at `u` consume something that the repo of the node
/// at `w`, another one, publishes?
pub open spec fn follows(ns: Seq<NodeView>, u: int, w: int) -> bool {
    &&& ns[u].repo.key() != ns[w].repo.key()
    &&& exists|m: Seq<char>| #[trigger]
        consumes(ns[u], m) && is_published_by(ns, m, ns[w].repo.key())
}

proof fn stands_for_is_vertex(ns: Seq<NodeView>, u: int, k: Seq<char>)
    requires
        0 <= u < ns.len(),
        ns[u].repo.key() == k,
    ensures
        stands_for(ns, u, k) <==> graph::is_vertex(ns, u),
        graph::last_with_key(ns, k) is Some,
{
    graph::last_with_key_is(ns, k);
    if let Some(v) = graph::last_with_key(ns, k) {
        if v < u {
            assert(ns[u].repo.key() != k);
        }
        if stands_for(ns, u, k) && u < v {
            assert(ns[v].repo.key() != k);
        }
    } else {
        assert(ns[u].repo.key() != k);
    }
}

proof fn published_by_is_producer(ns: Seq<NodeView>, m: Seq<char>, k: Seq<char>)
    ensures
        is_published_by(ns, m, k) <==> (graph::producer(ns, m) matches Some(w)
            && ns[w].repo.key() == k),
{
    graph::last_publisher_is(ns, m);
    match graph::last_publisher(ns, m) {
        Some(p) => {
            stands_for_is_vertex(ns, p, ns[p].repo.key());
            graph::last_with_key_is(ns, ns[p].repo.key());
            if is_published_by(ns, m, k) {
                let q = choose|q: int|
                    0 <= q < ns.len() && (#[trigger] ns[q]).published == Some(m)
                        && ns[q].repo.key() == k && forall|j: int|
                        q < j < ns.len() ==> (#[trigger] ns[j]).published != Some(m);
                if q < p {
                    assert(ns[p].published != Some(m));
                }
                if p < q {
                    assert(ns[q].published != Some(m));
                }
            }
            if let Some(w) = graph::producer(ns, m) {
                if ns[w].repo.key() == k {
                    assert(ns[p].published == Some(m) && ns[p].repo.key() == k);
                }
            }
        },
        None => {
            if is_published_by(ns, m, k) {
                let q = choose|q: int|
                    0 <= q < ns.len() && (#[trigger] ns[q]).published == Some(m)
                        && ns[q].repo.key() == k;
                assert(ns[q].published != Some(m));
            }
        },
    }
}

proof fn listed_is_affected(
    ns: Seq<NodeView>,
    root: Seq<char>,
    target: Seq<char>,
    bump_satisfied: bool,
    p: WavePlanView,
    k: Seq<char>,
)
    requires
        graph::is_plan(ns, root, target, bump_satisfied, p),
    ensures
        is_listed(p, k) <==> exists|u: int| #[trigger]
            graph::affected(ns, root, u) && ns[u].repo.key() == k,
{
    if p.cycle.contains(k) {
        let u = choose|u: int| #[trigger] graph::stuck(ns, root, u) && ns[u].repo.key() == k;
        assert(graph::affected(ns, root, u) && ns[u].repo.key() == k);
    } else if is_listed(p, k) {
        let i = choose|i: int| 0 <= i < p.items.len() && (#[trigger] p.items[i]).repo.key() == k;
        assert(graph::is_some_item(ns, root, target, bump_satisfied, p.items[i]));
        let u = choose|u: int| graph::is_item(ns, root, target, bump_satisfied, u, p.items[i]);
        assert(graph::affected(ns, root, u) && ns[u].repo.key() == k);
    }
    if exists|u: int| #[trigger] graph::affected(ns, root, u) && ns[u].repo.key() == k {
        let u = choose|u: int| #[trigger] graph::affected(ns, root, u) && ns[u].repo.key() == k;
        if graph::ordered(ns, root, u) {
            let i = choose|i: int|
                0 <= i < p.items.len() && graph::is_item(
                    ns,
                    root,
                    target,
                    bump_satisfied,
                    u,
                    #[trigger] p.items[i],
                );
            assert(p.items[i].repo.key() == k);
        } else {
            assert(graph::stuck(ns, root, u) && ns[u].repo.key() == k);
            assert(p.cycle.contains(k));
        }
    }
}

/// The node that stands for a repo is in the plan where it is affected.
proof fn listed_node(
    ns: Seq<NodeView>,
    root: Seq<char>,
    target: Seq<char>,
    bump_satisfied: bool,
    p: WavePlanView,
    u: int,
)
    requires
        graph::is_plan(ns, root, target, bump_satisfied, p),
        graph::is_vertex(ns, u),
    ensures
        is_listed(p, ns[u].repo.key()) <==> graph::affected(ns, root, u),
{
    let k = ns[u].repo.key();
    listed_is_affected(ns, root, target, bump_satisfied, p, k);
    if is_listed(p, k) {
        let v = choose|v: int| #[trigger] graph::affected(ns, root, v) && ns[v].repo.key() == k;
        graph::affected_is_vertex(ns, root, v);
        graph::vertex_keys_differ(ns, u, v);
    }
}

proof fn bumped_takes_part(
    ns: Seq<NodeView>,
    root: Seq<char>,
    target: Seq<char>,
    bump_satisfied: bool,
    p: WavePlanView,
    m: Seq<char>,
)
    requires
        graph::is_plan(ns, root, target, bump_satisfied, p),
    ensures
        is_bumped(ns, root, p, m) <==> graph::takes_part(ns, root, m),
{
    graph::producer_is_vertex(ns, m);
    if m != root {
        if is_bumped(ns, root, p, m) {
            let k = choose|k: Seq<char>| #[trigger] is_published_by(ns, m, k) && is_listed(p, k);
            published_by_is_producer(ns, m, k);
            listed_node(ns, root, target, bump_satisfied, p, graph::producer(ns, m)->0);
        }
        if let Some(w) = graph::producer(ns, m) {
            published_by_is_producer(ns, m, ns[w].repo.key());
            listed_node(ns, root, target, bump_satisfied, p, w);
        }
    }
}

proof fn follows_is_depends(ns: Seq<NodeView>, u: int, w: int)
    requires
        graph::is_vertex(ns, u),
        graph::is_vertex(ns, w),
    ensures
        follows(ns, u, w) <==> graph::depends(ns, u, w),
{
    if follows(ns, u, w) {
        let m = choose|m: Seq<char>| #[trigger]
            consumes(ns[u], m) && is_published_by(ns, m, ns[w].repo.key());
        let e = choose|e: int| 0 <= e < ns[u].edges.len() && (#[trigger] ns[u].edges[e]).module == m;
        published_by_is_producer(ns, m, ns[w].repo.key());
        graph::producer_is_vertex(ns, m);
        let x = graph::producer(ns, m)->0;
        graph::vertex_keys_differ(ns, x, w);
        assert(graph::producer(ns, ns[u].edges[e].module) == Some(w));
    }
    if graph::depends(ns, u, w) {
        let e = choose|e: int|
            0 <= e < ns[u].edges.len() && graph::producer(
                ns,
                (#[trigger] ns[u].edges[e]).module,
            ) == Some(w);
        let m = ns[u].edges[e].module;
        published_by_is_producer(ns, m, ns[w].repo.key());
        assert(consumes(ns[u], m));
        if ns[u].repo.key() == ns[w].repo.key() {
            graph::vertex_keys_differ(ns, u, w);
        }
    }
}

/// A plan leaves no consumer out: a repo that depends on the bumped module is
/// listed, unless it publishes that module itself, and so is a repo that depends
/// on anything that another listed repo publishes.
pub proof fn plan_reaches_every_consumer(
    ns: Seq<NodeView>,
    root: Seq<char>,
    target: Seq<char>,
    bump_satisfied: bool,
    p: WavePlanView,
    u: int,
)
    requires
        graph::is_plan(ns, root, target, bump_satisfied, p),
        0 <= u < ns.len(),
        stands_for(ns, u, ns[u].repo.key()),
    ensures
        consumes(ns[u], root) && !is_published_by(ns, root, ns[u].repo.key()) ==> is_listed(
            p,
            ns[u].repo.key(),
        ),
        forall|w: int|
            0 <= w < ns.len() && #[trigger] follows(ns, u, w) && is_listed(p, ns[w].repo.key())
                ==> is_listed(p, ns[u].repo.key()),
{
    let k = ns[u].repo.key();
    stands_for_is_vertex(ns, u, k);
    listed_node(ns, root, target, bump_satisfied, p, u);
    if consumes(ns[u], root) && !is_published_by(ns, root, k) {
        published_by_is_producer(ns, root, k);
        assert(graph::direct(ns, root, u));
        assert(graph::reached(ns, root, u, 0));
    }
    assert forall|w: int|
        0 <= w < ns.len() && #[trigger] follows(ns, u, w) && is_listed(
            p,
            ns[w].repo.key(),
        ) implies is_listed(p, k) by {
        let key = ns[w].repo.key();
        stands_for_is_vertex(ns, w, key);
        graph::last_with_key_is(ns, key);
        let x = graph::last_with_key(ns, key)->0;
        listed_node(ns, root, target, bump_satisfied, p, x);
        let m = choose|m: Seq<char>| #[trigger] consumes(ns[u], m) && is_published_by(ns, m, key);
        assert(consumes(ns[u], m) && is_published_by(ns, m, ns[x].repo.key()));
        follows_is_depends(ns, u, x);
        graph::affected_spreads(ns, root, u, x);
    }
}

/// Is `c` a way downstream: does its first repo depend on the bumped module,
/// without publishing it, and each further one on the one before it?
pub open spec fn is_way(ns: Seq<NodeView>, root: Seq<char>, c: Seq<int>) -> bool {
    &&& c.len() > 0
    &&& forall|i: int|
        0 <= i < c.len() ==> 0 <= #[trigger] c[i] < ns.len() && stands_for(
            ns,
            c[i],
            ns[c[i]].repo.key(),
        )
    &&& consumes(ns[c[0]], root)
    &&& !is_published_by(ns, root, ns[c[0]].repo.key())
    &&& forall|i: int| 0 < i < c.len() ==> follows(ns, #[trigger] c[i], c[i - 1])
}

/// A plan lists no repo without need: there is a way downstream to each one.
pub proof fn plan_reaches_no_other(
    ns: Seq<NodeView>,
    root: Seq<char>,
    target: Seq<char>,
    bump_satisfied: bool,
    p: WavePlanView,
    k: Seq<char>,
)
    requires
        graph::is_plan(ns, root, target, bump_satisfied, p),
        is_listed(p, k),
    ensures
        exists|c: Seq<int>| #[trigger] is_way(ns, root, c) && ns[c.last()].repo.key() == k,
{
    listed_is_affected(ns, root, target, bump_satisfied, p, k);
    let u = choose|u: int| #[trigger] graph::affected(ns, root, u) && ns[u].repo.key() == k;
    let n = choose|n: nat| graph::reached(ns, root, u, n);
    let c = way_to(ns, root, u, n);
    assert(is_way(ns, root, c) && ns[c.last()].repo.key() == k);
}

proof fn way_to(ns: Seq<NodeView>, root: Seq<char>, u: int, n: nat) -> (c: Seq<int>)
    requires
        graph::reached(ns, root, u, n),
    ensures
        is_way(ns, root, c),
        c.last() == u,
    decreases n,
{
    if graph::direct(ns, root, u) {
        let k = ns[u].repo.key();
        stands_for_is_vertex(ns, u, k);
        published_by_is_producer(ns, root, k);
        graph::producer_is_vertex(ns, root);
        if let Some(w) = graph::producer(ns, root) {
            if ns[w].repo.key() == k {
                graph::vertex_keys_differ(ns, u, w);
            }
        }
        seq![u]
    } else {
        let w = choose|w: int| #[trigger]
            graph::depends(ns, u, w) && graph::reached(ns, root, w, (n - 1) as nat);
        graph::depends_on_vertex(ns, u, w);
        let d = way_to(ns, root, w, (n - 1) as nat);
        follows_is_depends(ns, u, w);
        stands_for_is_vertex(ns, u, ns[u].repo.key());
        let c = d.push(u);
        assert forall|i: int| 0 <= i < c.len() implies 0 <= #[trigger] c[i] < ns.len()
            && stands_for(ns, c[i], ns[c[i]].repo.key()) by {
            if i < d.len() {
                assert(c[i] == d[i]);
            }
        }
        assert forall|i: int| 0 < i < c.len() implies follows(ns, #[trigger] c[i], c[i - 1]) by {
            if i < d.len() {
                assert(c[i] == d[i] && c[i - 1] == d[i - 1]);
            } else {
                assert(c[i - 1] == d.last());
            }
        }
        assert(c[0] == d[0]);
        c
    }
}

/// The first manifest path that is not empty among the edges of `n` on one of the
/// given modules is `path`; where there is none, `path` is empty.
pub open spec fn is_first_path(n: NodeView, modules: Seq<Seq<char>>, path: Seq<char>) -> bool {
    if path.len() == 0 {
        forall|e: int|
            0 <= e < n.edges.len() && modules.contains((#[trigger] n.edges[e]).module)
                ==> n.edges[e].manifest_path.len() == 0
    } else {
        exists|e: int|
            0 <= e < n.edges.len() && modules.contains((#[trigger] n.edges[e]).module)
                && n.edges[e].manifest_path == path && forall|d: int|
                0 <= d < e && modules.contains((#[trigger] n.edges[d]).module)
                    ==> n.edges[d].manifest_path.len() == 0
    }
}

/// What an item says: it is for a repo of the nodes, by the last node of that repo;
/// its modules are those of the repo's dependencies that the plan bumps, ascending,
/// each once; and the file to rewrite is the one that holds the first of those
/// dependencies.
pub proof fn item_bumps_what_is_bumped(
    ns: Seq<NodeView>,
    root: Seq<char>,
    target: Seq<char>,
    bump_satisfied: bool,
    p: WavePlanView,
    i: int,
)
    requires
        graph::is_plan(ns, root, target, bump_satisfied, p),
        0 <= i < p.items.len(),
    ensures
        ({
            let item = p.items[i];
            exists|u: int| #[trigger]
                stands_for(ns, u, item.repo.key()) && {
                    &&& item.repo == ns[u].repo
                    &&& item.published == ns[u].published
                    &&& forall|m: Seq<char>| #[trigger]
                        item.upstream_modules.contains(m) <==> consumes(ns[u], m) && is_bumped(
                            ns,
                            root,
                            p,
                            m,
                        )
                    &&& is_first_path(ns[u], item.upstream_modules, item.manifest_path)
                }
        }),
        forall|a: int, b: int|
            #![trigger p.items[i].upstream_modules[a], p.items[i].upstream_modules[b]]
            0 <= a < b < p.items[i].upstream_modules.len() ==> text::text_lt(
                p.items[i].upstream_modules[a],
                p.items[i].upstream_modules[b],
            ),
        p.items[i].upstream_modules.len() > 0,
{
    let item = p.items[i];
    assert(graph::is_some_item(ns, root, target, bump_satisfied, item));
    let u = choose|u: int| graph::is_item(ns, root, target, bump_satisfied, u, item);
    stands_for_is_vertex(ns, u, item.repo.key());
    assert forall|m: Seq<char>| #[trigger]
        item.upstream_modules.contains(m) <==> consumes(ns[u], m) && is_bumped(
            ns,
            root,
            p,
            m,
        ) by {
        bumped_takes_part(ns, root, target, bump_satisfied, p, m);
    }
    first_path_is(ns, root, u, ns[u].edges.len(), item.upstream_modules);
    assert(stands_for(ns, u, item.repo.key()));
    // The first repo of a way depends on the bumped module, any other one on a repo
    // in the plan.
    assert(graph::affected(ns, root, u));
    let n = choose|n: nat| graph::reached(ns, root, u, n);
    let m = if graph::direct(ns, root, u) {
        let e = choose|e: int|
            0 <= e < ns[u].edges.len() && (#[trigger] ns[u].edges[e]).module == root;
        assert(ns[u].edges[e].module == root);
        root
    } else {
        let w = choose|w: int| #[trigger]
            graph::depends(ns, u, w) && graph::reached(ns, root, w, (n - 1) as nat);
        assert(graph::affected(ns, root, w));
        let e = choose|e: int|
            0 <= e < ns[u].edges.len() && graph::producer(
                ns,
                (#[trigger] ns[u].edges[e]).module,
            ) == Some(w);
        assert(graph::takes_part(ns, root, ns[u].edges[e].module));
        ns[u].edges[e].module
    };
    assert(item.upstream_modules.contains(m));
}

proof fn first_path_is(
    ns: Seq<NodeView>,
    root: Seq<char>,
    u: int,
    n: nat,
    modules: Seq<Seq<char>>,
)
    requires
        0 <= u < ns.len(),
        n <= ns[u].edges.len(),
        forall|m: Seq<char>| #[trigger]
            modules.contains(m) <==> graph::takes_part(ns, root, m) && exists|e: int|
                0 <= e < ns[u].edges.len() && (#[trigger] ns[u].edges[e]).module == m,
    ensures
        ({
            let part = NodeView { edges: ns[u].edges.take(n as int), ..ns[u] };
            is_first_path(part, modules, graph::manifest_among(ns, root, u, n))
        }),
        n == ns[u].edges.len() ==> is_first_path(
            ns[u],
            modules,
            graph::manifest_among(ns, root, u, n),
        ),
    decreases n,
{
    let path = graph::manifest_among(ns, root, u, n);
    let part = NodeView { edges: ns[u].edges.take(n as int), ..ns[u] };
    if n > 0 {
        let l: int = n - 1;
        let init = NodeView { edges: ns[u].edges.take(l), ..ns[u] };
        let before = graph::manifest_among(ns, root, u, l as nat);
        first_path_is(ns, root, u, l as nat, modules);
        assert(ns[u].edges[l].module == part.edges[l].module);
        assert(modules.contains(part.edges[l].module) == graph::takes_part(
            ns,
            root,
            part.edges[l].module,
        ));
        assert forall|d: int| 0 <= d < l implies #[trigger] part.edges[d] == init.edges[d] by {}
        if before.len() == 0 {
            assert forall|d: int| 0 <= d < l && modules.contains((#[trigger] part.edges[d]).module)
                implies part.edges[d].manifest_path.len() == 0 by {
                assert(init.edges[d] == part.edges[d]);
            }
        } else {
            let e = choose|e: int|
                0 <= e < init.edges.len() && modules.contains((#[trigger] init.edges[e]).module)
                    && init.edges[e].manifest_path == before && forall|d: int|
                    0 <= d < e && modules.contains((#[trigger] init.edges[d]).module)
                        ==> init.edges[d].manifest_path.len() == 0;
            assert(part.edges[e] == init.edges[e]);
            assert forall|d: int| 0 <= d < e && modules.contains((#[trigger] part.edges[d]).module)
                implies part.edges[d].manifest_path.len() == 0 by {
                assert(init.edges[d] == part.edges[d]);
            }
        }
    }
    if n == ns[u].edges.len() {
        assert(ns[u].edges.take(n as int) =~= ns[u].edges);
        assert(part == ns[u]);
    }
}

/// Is the edge at `e` the first one of `n` on `m`?
pub open spec fn is_first_on(n: NodeView, m: Seq<char>, e: int) -> bool {
    &&& 0 <= e < n.edges.len()
    &&& n.edges[e].module == m
    &&& forall|d: int| 0 <= d < e ==> (#[trigger] n.edges[d]).module != m
}

proof fn first_edge_is(edges: Seq<DepEdgeView>, m: Seq<char>)
    ensures
        graph::first_edge_on(edges, m) matches Some(x) ==> exists|e: int|
            0 <= e < edges.len() && (#[trigger] edges[e]) == x && x.module == m && forall|d: int|
                0 <= d < e ==> (#[trigger] edges[d]).module != m,
        graph::first_edge_on(edges, m) is None ==> forall|d: int|
            0 <= d < edges.len() ==> (#[trigger] edges[d]).module != m,
    decreases edges.len(),
{
    if edges.len() > 0 && edges[0].module != m {
        let tail = edges.skip(1);
        first_edge_is(tail, m);
        if let Some(x) = graph::first_edge_on(edges, m) {
            let e = choose|e: int|
                0 <= e < tail.len() && (#[trigger] tail[e]) == x && x.module == m && forall|d: int|
                    0 <= d < e ==> (#[trigger] tail[d]).module != m;
            assert(edges[e + 1] == x);
            assert forall|d: int| 0 <= d < e + 1 implies (#[trigger] edges[d]).module != m by {
                if d > 0 {
                    assert(tail[d - 1] == edges[d]);
                }
            }
        } else {
            assert forall|d: int| 0 <= d < edges.len() implies (#[trigger] edges[d]).module != m by {
                if d > 0 {
                    assert(tail[d - 1] == edges[d]);
                }
            }
        }
    } else if edges.len() > 0 {
        assert(edges[0].module == m);
    }
}

/// An item says whether its repo needs the bump just where the repo depends on the
/// bumped module itself and the target is a version; it is what is decided for the
/// first of those dependencies.
pub proof fn item_decides_on_the_bumped_module(
    ns: Seq<NodeView>,
    root: Seq<char>,
    target: Seq<char>,
    bump_satisfied: bool,
    p: WavePlanView,
    i: int,
    u: int,
)
    requires
        graph::is_plan(ns, root, target, bump_satisfied, p),
        0 <= i < p.items.len(),
        stands_for(ns, u, p.items[i].repo.key()),
    ensures
        p.items[i].decision is Some <==> consumes(ns[u], root) && version::version_of(
            text::trimmed(target),
        ) is Some,
        forall|e: int| #[trigger]
            is_first_on(ns[u], root, e) ==> (version::version_of(text::trimmed(target)) matches Some(
                t,
            ) ==> p.items[i].decision == Some(
                edge::decision(ns[u].edges[e].current, t, bump_satisfied),
            )),
{
    let item = p.items[i];
    assert(graph::is_some_item(ns, root, target, bump_satisfied, item));
    let v = choose|v: int| graph::is_item(ns, root, target, bump_satisfied, v, item);
    stands_for_is_vertex(ns, u, item.repo.key());
    graph::vertex_keys_differ(ns, u, v);
    first_edge_is(ns[u].edges, root);
    assert forall|e: int| #[trigger] is_first_on(ns[u], root, e) implies graph::first_edge_on(
        ns[u].edges,
        root,
    ) == Some(ns[u].edges[e]) by {
        assert(ns[u].edges[e].module == root);
        let x = graph::first_edge_on(ns[u].edges, root)->0;
        let d = choose|d: int|
            0 <= d < ns[u].edges.len() && (#[trigger] ns[u].edges[d]) == x && x.module == root
                && forall|c: int| 0 <= c < d ==> (#[trigger] ns[u].edges[c]).module != root;
        if d < e {
            assert(ns[u].edges[d].module != root);
        }
        if e < d {
            assert(ns[u].edges[e].module != root);
        }
    }
}

/// A repo comes behind everything that it takes from: each repo of the plan that it
/// depends on is an item, at a smaller tier. And no tier is larger than that
/// demands: at tier 1 a repo depends on the bumped module itself, and above it on
/// some repo at the tier before.
pub proof fn tiers_follow_dependencies(
    ns: Seq<NodeView>,
    root: Seq<char>,
    target: Seq<char>,
    bump_satisfied: bool,
    p: WavePlanView,
    i: int,
    u: int,
)
    requires
        graph::is_plan(ns, root, target, bump_satisfied, p),
        0 <= i < p.items.len(),
        stands_for(ns, u, p.items[i].repo.key()),
    ensures
        p.items[i].tier >= 1,
        forall|w: int|
            0 <= w < ns.len() && #[trigger] follows(ns, u, w) && is_listed(p, ns[w].repo.key())
                ==> exists|j: int|
                0 <= j < p.items.len() && (#[trigger] p.items[j]).repo.key() == ns[w].repo.key()
                    && p.items[j].tier < p.items[i].tier,
        p.items[i].tier == 1 ==> consumes(ns[u], root),
        p.items[i].tier > 1 ==> exists|w: int, j: int|
            #![trigger follows(ns, u, w), p.items[j]]
            0 <= w < ns.len() && follows(ns, u, w) && 0 <= j < p.items.len()
                && p.items[j].repo.key() == ns[w].repo.key() && p.items[j].tier + 1
                == p.items[i].tier,
{
    let item = p.items[i];
    let t = item.tier as nat;
    assert(graph::is_some_item(ns, root, target, bump_satisfied, item));
    let v = choose|v: int| graph::is_item(ns, root, target, bump_satisfied, v, item);
    stands_for_is_vertex(ns, u, item.repo.key());
    graph::vertex_keys_differ(ns, u, v);
    assert forall|w: int|
        0 <= w < ns.len() && #[trigger] follows(ns, u, w) && is_listed(
            p,
            ns[w].repo.key(),
        ) implies exists|j: int|
        0 <= j < p.items.len() && (#[trigger] p.items[j]).repo.key() == ns[w].repo.key()
            && p.items[j].tier < item.tier by {
        let key = ns[w].repo.key();
        stands_for_is_vertex(ns, w, key);
        graph::last_with_key_is(ns, key);
        let x = graph::last_with_key(ns, key)->0;
        listed_node(ns, root, target, bump_satisfied, p, x);
        let m = choose|m: Seq<char>| #[trigger] consumes(ns[u], m) && is_published_by(ns, m, key);
        assert(consumes(ns[u], m) && is_published_by(ns, m, ns[x].repo.key()));
        follows_is_depends(ns, u, x);
        graph::tier_exceeds_producers(ns, root, u, t, x);
        let s = choose|s: nat| graph::is_tier(ns, root, x, s) && s < t;
        assert(graph::ordered(ns, root, x));
        let j = choose|j: int|
            0 <= j < p.items.len() && graph::is_item(
                ns,
                root,
                target,
                bump_satisfied,
                x,
                #[trigger] p.items[j],
            );
        graph::tier_is_unique(ns, root, x, s, p.items[j].tier as nat);
        assert(p.items[j].repo.key() == key && p.items[j].tier < item.tier);
    }
    if t == 1 {
        graph::tier_one_is_direct(ns, root, u);
    } else {
        graph::tier_is_reached(ns, root, u, t);
        let w = choose|w: int| #[trigger]
            graph::depends(ns, u, w) && graph::affected(ns, root, w) && graph::is_tier(
                ns,
                root,
                w,
                (t - 1) as nat,
            );
        graph::depends_on_vertex(ns, u, w);
        follows_is_depends(ns, u, w);
        assert(graph::ordered(ns, root, w));
        let j = choose|j: int|
            0 <= j < p.items.len() && graph::is_item(
                ns,
                root,
                target,
                bump_satisfied,
                w,
                #[trigger] p.items[j],
            );
        graph::tier_is_unique(ns, root, w, (t - 1) as nat, p.items[j].tier as nat);
        assert(follows(ns, u, w) && p.items[j].repo.key() == ns[w].repo.key());
    }
}

/// Each repo is listed once, either as an item or in a cycle, and the items stand by
/// tier, then by key.
pub proof fn plan_lists_each_repo_once(
    ns: Seq<NodeView>,
    root: Seq<char>,
    target: Seq<char>,
    bump_satisfied: bool,
    p: WavePlanView,
    i: int,
    j: int,
)
    requires
        graph::is_plan(ns, root, target, bump_satisfied, p),
        0 <= i < p.items.len(),
    ensures
        i < j < p.items.len() ==> p.items[i].tier < p.items[j].tier || p.items[i].tier
            == p.items[j].tier && text::text_lt(p.items[i].repo.key(), p.items[j].repo.key()),
        i < j < p.items.len() ==> p.items[i].repo.key() != p.items[j].repo.key(),
        !p.cycle.contains(p.items[i].repo.key()),
        p.cycle.no_duplicates(),
{
    let key = p.items[i].repo.key();
    assert(graph::is_some_item(ns, root, target, bump_satisfied, p.items[i]));
    let u = choose|u: int| graph::is_item(ns, root, target, bump_satisfied, u, p.items[i]);
    assert(graph::ordered(ns, root, u));
    if p.cycle.contains(key) {
        let v = choose|v: int| #[trigger] graph::stuck(ns, root, v) && ns[v].repo.key() == key;
        graph::affected_is_vertex(ns, root, v);
        graph::vertex_keys_differ(ns, u, v);
    }
    if i < j < p.items.len() {
        assert(graph::item_before(p.items[i], p.items[j]));
        assert(graph::is_some_item(ns, root, target, bump_satisfied, p.items[j]));
        let v = choose|v: int| graph::is_item(ns, root, target, bump_satisfied, v, p.items[j]);
        if ns[v].repo.key() == key {
            graph::vertex_keys_differ(ns, u, v);
            graph::tier_is_unique(ns, root, u, p.items[i].tier as nat, p.items[j].tier as nat);
            text::text_lt_irreflexive(key);
        }
    }
}

/// A plan is for the bump that was asked, from the repo that publishes the bumped
/// module, and that repo is never an item of it.
pub proof fn plan_starts_at_the_publisher(
    ns: Seq<NodeView>,
    root: Seq<char>,
    target: Seq<char>,
    bump_satisfied: bool,
    p: WavePlanView,
)
    requires
        graph::is_plan(ns, root, target, bump_satisfied, p),
    ensures
        p.root_module == root,
        p.target_version == target,
        p.root_repo is None <==> forall|j: int|
            0 <= j < ns.len() ==> (#[trigger] ns[j]).published != Some(root),
        p.root_repo matches Some(r) ==> is_published_by(ns, root, r.key()),
        p.root_repo matches Some(r) ==> exists|u: int| #[trigger]
            stands_for(ns, u, r.key()) && ns[u].repo == r,
        p.root_repo matches Some(r) ==> forall|i: int|
            0 <= i < p.items.len() ==> (#[trigger] p.items[i]).repo.key() != r.key(),
{
    graph::last_publisher_is(ns, root);
    graph::producer_is_vertex(ns, root);
    if let Some(w) = graph::producer(ns, root) {
        let r = ns[w].repo;
        published_by_is_producer(ns, root, r.key());
        stands_for_is_vertex(ns, w, r.key());
        assert(p.root_repo == Some(r));
        assert(is_published_by(ns, root, r.key()));
        let found = p.root_repo->0;
        assert(stands_for(ns, w, found.key()) && ns[w].repo == found);
        assert(exists|u: int| #[trigger] stands_for(ns, u, found.key()) && ns[u].repo == found);
        assert forall|i: int| 0 <= i < p.items.len() implies (#[trigger] p.items[i]).repo.key()
            != r.key() by {
            graph::root_repo_is_not_planned(ns, root, target, bump_satisfied, p, w, i);
        }
    } else if let Some(q) = graph::last_publisher(ns, root) {
        stands_for_is_vertex(ns, q, ns[q].repo.key());
    }
}

/// What stands in a cycle cannot be put in order: each of those repos depends on
/// another one of them.
pub proof fn cycle_hangs_on_itself(
    ns: Seq<NodeView>,
    root: Seq<char>,
    target: Seq<char>,
    bump_satisfied: bool,
    p: WavePlanView,
    k: Seq<char>,
)
    requires
        graph::is_plan(ns, root, target, bump_satisfied, p),
        p.cycle.contains(k),
    ensures
        exists|u: int, w: int| #[trigger]
            follows(ns, u, w) && stands_for(ns, u, k) && 0 <= w < ns.len() && p.cycle.contains(
                ns[w].repo.key(),
            ),
{
    let u = choose|u: int| #[trigger] graph::stuck(ns, root, u) && ns[u].repo.key() == k;
    graph::affected_is_vertex(ns, root, u);
    graph::stuck_depends_on_stuck(ns, root, u);
    let w = choose|w: int| #[trigger] graph::depends(ns, u, w) && graph::stuck(ns, root, w);
    graph::depends_on_vertex(ns, u, w);
    follows_is_depends(ns, u, w);
    stands_for_is_vertex(ns, u, k);
    assert(graph::stuck(ns, root, w) && ns[w].repo.key() == ns[w].repo.key());
    assert(p.cycle.contains(ns[w].repo.key()));
    assert(follows(ns, u, w));
}

} // verus!
