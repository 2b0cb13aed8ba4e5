//! Cross-repo DAG assembly + the tiered cascade plan.
//!
//! Given each repo's `{published name, dependency edges}`, build the
//! `consumer → producer` graph, compute the set affected by bumping one module,
//! assign each affected repo a **tier** (its longest-path depth from the bump),
//! detect cycles, and emit a topologically-ordered [`WavePlan`].
use vstd::prelude::*;
use vstd::string::*;

use crate::edge::{self, decide, BumpDecision, DecisionView, DepEdge, DepEdgeView};
use crate::forge::{RepoRef, RepoRefView};
use crate::text::{self, copy_opt, copy_texts, text_before, trim};
use crate::version::{self, Version};

verus! {

/// One repo's contribution to the graph.
#[derive(Debug)]
pub struct RepoNode {
    pub repo: RepoRef,
    /// The module/package this repo publishes, if any (apps publish nothing).
    pub published: Option<String>,
    pub edges: Vec<DepEdge>,
}

/// What a [`RepoNode`] says.
pub struct NodeView {
    pub repo: RepoRefView,
    pub published: Option<Seq<char>>,
    pub edges: Seq<DepEdgeView>,
}

impl DeepView for RepoNode {
    type V = NodeView;

    open spec fn deep_view(&self) -> NodeView {
        NodeView {
            repo: self.repo.deep_view(),
            published: self.published.deep_view(),
            edges: self.edges.deep_view(),
        }
    }
}

/// Stable key for a repo across forges/hosts.
pub fn repo_key(r: &RepoRef) -> (s: String)
    ensures
        s@ == r.deep_view().key(),
{
    let mut out = r.host.clone();
    out.push('|');
    out.append(r.owner.as_str());
    out.push('/');
    out.append(r.name.as_str());
    assert(out@ =~= r.deep_view().key());
    out
}

/// One repo's place in a proposed cascade.
#[derive(Debug)]
pub struct PlanItem {
    pub repo: RepoRef,
    /// The module/package this repo publishes, if any (apps publish nothing).
    pub published: Option<String>,
    /// Cascade depth: 1 = direct consumer of the bumped module, 2 = its
    /// consumer, … (longest path from the bump).
    pub tier: u32,
    /// The first-party modules this repo consumes that participate in the wave
    /// (the bumped module for tier-1; upstream repos' modules for deeper tiers).
    pub upstream_modules: Vec<String>,
    /// The manifest the wave-participating edges live in (e.g. `"MODULE.bazel"`,
    /// `"package.json"`) — the file the bump rewrites.
    pub manifest_path: String,
    /// For a direct consumer of the bumped module: whether it needs a bump to
    /// the target. `None` where the repo has no edge on the module itself (its
    /// target is the upstream's not-yet-known published version).
    pub decision: Option<BumpDecision>,
}

/// What a [`PlanItem`] says.
pub struct PlanItemView {
    pub repo: RepoRefView,
    pub published: Option<Seq<char>>,
    pub tier: u32,
    pub upstream_modules: Seq<Seq<char>>,
    pub manifest_path: Seq<char>,
    pub decision: Option<DecisionView>,
}

impl DeepView for PlanItem {
    type V = PlanItemView;

    open spec fn deep_view(&self) -> PlanItemView {
        PlanItemView {
            repo: self.repo.deep_view(),
            published: self.published.deep_view(),
            tier: self.tier,
            upstream_modules: self.upstream_modules.deep_view(),
            manifest_path: self.manifest_path@,
            decision: self.decision.deep_view(),
        }
    }
}

impl Clone for PlanItem {
    fn clone(&self) -> (r: PlanItem)
        ensures
            r.deep_view() == self.deep_view(),
    {
        PlanItem {
            repo: self.repo.clone(),
            published: copy_opt(&self.published),
            tier: self.tier,
            upstream_modules: copy_texts(&self.upstream_modules),
            manifest_path: self.manifest_path.clone(),
            decision: match &self.decision {
                Some(d) => Some(d.clone()),
                None => None,
            },
        }
    }
}

/// A proposed cascade: the affected repos in dependency order.
#[derive(Debug)]
pub struct WavePlan {
    pub root_module: String,
    pub root_repo: Option<RepoRef>,
    pub target_version: String,
    /// Affected repos, ascending by tier then key.
    pub items: Vec<PlanItem>,
    /// Repo keys that form a dependency cycle (couldn't be ordered).
    pub cycle: Vec<String>,
}

/// What a [`WavePlan`] says.
pub struct WavePlanView {
    pub root_module: Seq<char>,
    pub root_repo: Option<RepoRefView>,
    pub target_version: Seq<char>,
    pub items: Seq<PlanItemView>,
    pub cycle: Seq<Seq<char>>,
}

impl DeepView for WavePlan {
    type V = WavePlanView;

    open spec fn deep_view(&self) -> WavePlanView {
        WavePlanView {
            root_module: self.root_module@,
            root_repo: self.root_repo.deep_view(),
            target_version: self.target_version@,
            items: self.items.deep_view(),
            cycle: self.cycle.deep_view(),
        }
    }
}

// ─── the dependency graph ───────────────────────────────────────────────

/// The last node whose repo has the key `k`: the one that stands for the repo.
pub open spec fn last_with_key(ns: Seq<NodeView>, k: Seq<char>) -> Option<int>
    decreases ns.len(),
{
    if ns.len() == 0 {
        None
    } else if ns.last().repo.key() == k {
        Some(ns.len() - 1)
    } else {
        last_with_key(ns.drop_last(), k)
    }
}

/// The last node that publishes the module `m`.
pub open spec fn last_publisher(ns: Seq<NodeView>, m: Seq<char>) -> Option<int>
    decreases ns.len(),
{
    if ns.len() == 0 {
        None
    } else if ns.last().published == Some(m) {
        Some(ns.len() - 1)
    } else {
        last_publisher(ns.drop_last(), m)
    }
}

/// Does the node `u` stand for its repo?
pub open spec fn is_vertex(ns: Seq<NodeView>, u: int) -> bool {
    0 <= u < ns.len() && last_with_key(ns, ns[u].repo.key()) == Some(u)
}

/// The node that stands for the repo that publishes `m`.
pub open spec fn producer(ns: Seq<NodeView>, m: Seq<char>) -> Option<int> {
    match last_publisher(ns, m) {
        Some(p) => last_with_key(ns, ns[p].repo.key()),
        None => None,
    }
}

/// Does the repo `u` declare a dependency on a module of the other repo `w`?
pub open spec fn depends(ns: Seq<NodeView>, u: int, w: int) -> bool {
    &&& is_vertex(ns, u)
    &&& w != u
    &&& exists|e: int|
        0 <= e < ns[u].edges.len() && producer(ns, (#[trigger] ns[u].edges[e]).module) == Some(w)
}

/// Does the repo `u` declare a dependency on the module `root` itself? The repo
/// that publishes it is the source of the wave, not a consumer.
pub open spec fn direct(ns: Seq<NodeView>, root: Seq<char>, u: int) -> bool {
    &&& is_vertex(ns, u)
    &&& producer(ns, root) != Some(u)
    &&& exists|e: int| 0 <= e < ns[u].edges.len() && (#[trigger] ns[u].edges[e]).module == root
}

/// Is `u` a direct consumer of `root`, or within `n` steps downstream of one?
pub open spec fn reached(ns: Seq<NodeView>, root: Seq<char>, u: int, n: nat) -> bool
    decreases n,
{
    direct(ns, root, u) || (n > 0 && exists|w: int| #[trigger]
        depends(ns, u, w) && reached(ns, root, w, (n - 1) as nat))
}

/// Does bumping `root` reach the repo `u`?
pub open spec fn affected(ns: Seq<NodeView>, root: Seq<char>, u: int) -> bool {
    exists|n: nat| reached(ns, root, u, n)
}

/// Does every chain of affected repos that ends in the affected `u` have at
/// most `n` members?
pub open spec fn settled(ns: Seq<NodeView>, root: Seq<char>, u: int, n: nat) -> bool
    decreases n,
{
    n > 0 && affected(ns, root, u) && forall|w: int| #[trigger]
        depends(ns, u, w) && affected(ns, root, w) ==> settled(ns, root, w, (n - 1) as nat)
}

/// Is `t` the number of repos on the longest chain that ends in `u`?
pub open spec fn is_tier(ns: Seq<NodeView>, root: Seq<char>, u: int, t: nat) -> bool {
    t > 0 && settled(ns, root, u, t) && !settled(ns, root, u, (t - 1) as nat)
}

/// Can the affected repo `u` be given a tier?
pub open spec fn ordered(ns: Seq<NodeView>, root: Seq<char>, u: int) -> bool {
    exists|n: nat| settled(ns, root, u, n)
}

/// Is `u` affected, but on or downstream of a cycle?
pub open spec fn stuck(ns: Seq<NodeView>, root: Seq<char>, u: int) -> bool {
    affected(ns, root, u) && !ordered(ns, root, u)
}

// ─── what a plan says ───────────────────────────────────────────────────

/// Does the edge on `m` take part in the wave: is `m` the bumped module, or
/// published by an affected repo?
pub open spec fn takes_part(ns: Seq<NodeView>, root: Seq<char>, m: Seq<char>) -> bool {
    m == root || (producer(ns, m) matches Some(w) && affected(ns, root, w))
}

/// The first manifest path that is not empty among the first `n` edges of `u`
/// that take part in the wave.
pub open spec fn manifest_among(ns: Seq<NodeView>, root: Seq<char>, u: int, n: nat) -> Seq<char>
    decreases n,
{
    if n == 0 {
        seq![]
    } else {
        let before = manifest_among(ns, root, u, (n - 1) as nat);
        let e = ns[u].edges[n - 1];
        if before.len() == 0 && takes_part(ns, root, e.module) {
            e.manifest_path
        } else {
            before
        }
    }
}

/// The first edge on the module `m`.
pub open spec fn first_edge_on(edges: Seq<DepEdgeView>, m: Seq<char>) -> Option<DepEdgeView>
    decreases edges.len(),
{
    if edges.len() == 0 {
        None
    } else if edges[0].module == m {
        Some(edges[0])
    } else {
        first_edge_on(edges.skip(1), m)
    }
}

/// The decision for a repo with the given edges.
pub open spec fn root_decision(
    edges: Seq<DepEdgeView>,
    root: Seq<char>,
    target: Seq<char>,
    bump_satisfied: bool,
) -> Option<DecisionView> {
    match (first_edge_on(edges, root), version::version_of(text::trimmed(target))) {
        (Some(e), Some(t)) => Some(edge::decision(e.current, t, bump_satisfied)),
        _ => None,
    }
}

/// Is every text before the next?
pub open spec fn ascending(s: Seq<Seq<char>>) -> bool {
    forall|i: int, j: int|
        #![trigger s[i], s[j]]
        0 <= i < j < s.len() ==> text::text_lt(s[i], s[j])
}

/// Is `item` the plan's entry for the repo `u`?
pub open spec fn is_item(
    ns: Seq<NodeView>,
    root: Seq<char>,
    target: Seq<char>,
    bump_satisfied: bool,
    u: int,
    item: PlanItemView,
) -> bool {
    &&& is_vertex(ns, u)
    &&& item.repo == ns[u].repo
    &&& item.published == ns[u].published
    &&& is_tier(ns, root, u, item.tier as nat)
    &&& ascending(item.upstream_modules)
    &&& forall|m: Seq<char>| #[trigger]
        item.upstream_modules.contains(m) <==> takes_part(ns, root, m) && exists|e: int|
            0 <= e < ns[u].edges.len() && (#[trigger] ns[u].edges[e]).module == m
    &&& item.manifest_path == manifest_among(ns, root, u, ns[u].edges.len())
    &&& item.decision == root_decision(ns[u].edges, root, target, bump_satisfied)
}

/// Is `item` the plan's entry for some repo?
pub open spec fn is_some_item(
    ns: Seq<NodeView>,
    root: Seq<char>,
    target: Seq<char>,
    bump_satisfied: bool,
    item: PlanItemView,
) -> bool {
    exists|u: int| is_item(ns, root, target, bump_satisfied, u, item)
}

/// Plan order: by tier, then by repo key.
pub open spec fn item_before(a: PlanItemView, b: PlanItemView) -> bool {
    a.tier < b.tier || a.tier == b.tier && text::text_lt(a.repo.key(), b.repo.key())
}

/// Is `p` the cascade for bumping `root` to `target`?
pub open spec fn is_plan(
    ns: Seq<NodeView>,
    root: Seq<char>,
    target: Seq<char>,
    bump_satisfied: bool,
    p: WavePlanView,
) -> bool {
    &&& p.root_module == root
    &&& p.target_version == target
    &&& p.root_repo == (match producer(ns, root) {
        Some(w) => Some(ns[w].repo),
        None => None,
    })
    // One item per repo that can be ordered, in plan order.
    &&& forall|i: int|
        0 <= i < p.items.len() ==> is_some_item(
            ns,
            root,
            target,
            bump_satisfied,
            #[trigger] p.items[i],
        )
    &&& forall|u: int| #[trigger]
        ordered(ns, root, u) ==> exists|i: int|
            0 <= i < p.items.len() && is_item(
                ns,
                root,
                target,
                bump_satisfied,
                u,
                #[trigger] p.items[i],
            )
    &&& forall|i: int, j: int|
        #![trigger p.items[i], p.items[j]]
        0 <= i < j < p.items.len() ==> item_before(p.items[i], p.items[j])
    // The keys of the repos that cannot, each once.
    &&& p.cycle.no_duplicates()
    &&& forall|k: Seq<char>| #[trigger]
        p.cycle.contains(k) <==> exists|u: int| #[trigger]
            stuck(ns, root, u) && ns[u].repo.key() == k
}

// ─── facts about the graph ──────────────────────────────────────────────

pub proof fn last_with_key_is(ns: Seq<NodeView>, k: Seq<char>)
    ensures
        last_with_key(ns, k) matches Some(i) ==> 0 <= i < ns.len() && ns[i].repo.key() == k
            && forall|j: int| i < j < ns.len() ==> (#[trigger] ns[j]).repo.key() != k,
        last_with_key(ns, k) is None ==> forall|j: int|
            0 <= j < ns.len() ==> (#[trigger] ns[j]).repo.key() != k,
    decreases ns.len(),
{
    if ns.len() > 0 {
        last_with_key_is(ns.drop_last(), k);
        assert forall|j: int| 0 <= j < ns.len() - 1 implies #[trigger] ns[j] == ns.drop_last()[j] by {
        }
    }
}

pub proof fn last_publisher_is(ns: Seq<NodeView>, m: Seq<char>)
    ensures
        last_publisher(ns, m) matches Some(i) ==> 0 <= i < ns.len() && ns[i].published == Some(m)
            && forall|j: int| i < j < ns.len() ==> (#[trigger] ns[j]).published != Some(m),
        last_publisher(ns, m) is None ==> forall|j: int|
            0 <= j < ns.len() ==> (#[trigger] ns[j]).published != Some(m),
    decreases ns.len(),
{
    if ns.len() > 0 {
        last_publisher_is(ns.drop_last(), m);
        assert forall|j: int| 0 <= j < ns.len() - 1 implies #[trigger] ns[j] == ns.drop_last()[j] by {
        }
    }
}

pub proof fn producer_is_vertex(ns: Seq<NodeView>, m: Seq<char>)
    ensures
        producer(ns, m) matches Some(w) ==> is_vertex(ns, w),
{
    last_publisher_is(ns, m);
    if let Some(p) = last_publisher(ns, m) {
        last_with_key_is(ns, ns[p].repo.key());
    }
}

/// Both ends of a dependency stand for repos.
pub proof fn depends_on_vertex(ns: Seq<NodeView>, u: int, w: int)
    requires
        depends(ns, u, w),
    ensures
        is_vertex(ns, u),
        is_vertex(ns, w),
{
    let e = choose|e: int|
        0 <= e < ns[u].edges.len() && producer(ns, (#[trigger] ns[u].edges[e]).module) == Some(w);
    producer_is_vertex(ns, ns[u].edges[e].module);
}

/// An affected node stands for a repo.
pub proof fn affected_is_vertex(ns: Seq<NodeView>, root: Seq<char>, u: int)
    requires
        affected(ns, root, u),
    ensures
        is_vertex(ns, u),
{
    let n = choose|n: nat| reached(ns, root, u, n);
    if !direct(ns, root, u) {
        let w = choose|w: int| #[trigger]
            depends(ns, u, w) && reached(ns, root, w, (n - 1) as nat);
        assert(depends(ns, u, w));
    }
}

/// Two repos never share a key.
pub proof fn vertex_keys_differ(ns: Seq<NodeView>, u: int, v: int)
    requires
        is_vertex(ns, u),
        is_vertex(ns, v),
        ns[u].repo.key() == ns[v].repo.key(),
    ensures
        u == v,
{
}

/// The consumers of an affected repo are affected.
pub proof fn affected_spreads(ns: Seq<NodeView>, root: Seq<char>, u: int, w: int)
    requires
        depends(ns, u, w),
        affected(ns, root, w),
    ensures
        affected(ns, root, u),
{
    let n = choose|n: nat| reached(ns, root, w, n);
    assert(reached(ns, root, w, ((n + 1) - 1) as nat));
    assert(reached(ns, root, u, n + 1));
}

/// A set that holds the direct consumers and is closed downstream holds every
/// affected repo.
proof fn affected_is_least(ns: Seq<NodeView>, root: Seq<char>, aff: Seq<bool>, u: int, n: nat)
    requires
        aff.len() == ns.len(),
        forall|v: int| #[trigger] direct(ns, root, v) ==> aff[v],
        forall|v: int, w: int| #[trigger] depends(ns, v, w) && aff[w] ==> aff[v],
        reached(ns, root, u, n),
    ensures
        aff[u],
    decreases n,
{
    if !direct(ns, root, u) {
        let w = choose|w: int| #[trigger]
            depends(ns, u, w) && reached(ns, root, w, (n - 1) as nat);
        affected_is_least(ns, root, aff, w, (n - 1) as nat);
    }
}

proof fn settled_mono(ns: Seq<NodeView>, root: Seq<char>, u: int, n: nat, m: nat)
    requires
        n <= m,
        settled(ns, root, u, n),
    ensures
        settled(ns, root, u, m),
    decreases m,
{
    if n < m {
        assert forall|w: int| #[trigger]
            depends(ns, u, w) && affected(ns, root, w) implies settled(
            ns,
            root,
            w,
            (m - 1) as nat,
        ) by {
            settled_mono(ns, root, w, (n - 1) as nat, (m - 1) as nat);
        }
    }
}

/// Once a level settles nothing new, no later level does.
proof fn settled_stable(ns: Seq<NodeView>, root: Seq<char>, u: int, t: nat, n: nat)
    requires
        forall|v: int| #[trigger]
            settled(ns, root, v, t + 1) ==> settled(ns, root, v, t),
        t <= n,
        settled(ns, root, u, n),
    ensures
        settled(ns, root, u, t),
    decreases n,
{
    if t < n {
        assert forall|w: int| #[trigger]
            depends(ns, u, w) && affected(ns, root, w) implies settled(ns, root, w, t) by {
            settled_stable(ns, root, w, t, (n - 1) as nat);
        }
        assert(settled(ns, root, u, t + 1));
    }
}

/// A repo has one tier.
pub proof fn tier_is_unique(ns: Seq<NodeView>, root: Seq<char>, u: int, s: nat, t: nat)
    requires
        is_tier(ns, root, u, s),
        is_tier(ns, root, u, t),
    ensures
        s == t,
{
    if s < t {
        settled_mono(ns, root, u, s, (t - 1) as nat);
    }
    if t < s {
        settled_mono(ns, root, u, t, (s - 1) as nat);
    }
}

/// Every repo that can be ordered has a tier.
pub proof fn ordered_has_tier(ns: Seq<NodeView>, root: Seq<char>, u: int)
    requires
        ordered(ns, root, u),
    ensures
        exists|t: nat| is_tier(ns, root, u, t),
{
    let n = choose|n: nat| settled(ns, root, u, n);
    least_settled(ns, root, u, n);
}

proof fn least_settled(ns: Seq<NodeView>, root: Seq<char>, u: int, n: nat)
    requires
        settled(ns, root, u, n),
    ensures
        exists|t: nat| is_tier(ns, root, u, t),
    decreases n,
{
    if settled(ns, root, u, (n - 1) as nat) {
        least_settled(ns, root, u, (n - 1) as nat);
    } else {
        assert(is_tier(ns, root, u, n));
    }
}

// ─── laws ───────────────────────────────────────────────────────────────

/// A repo is ordered after every affected repo it depends on: those are
/// ordered too, each at a smaller tier.
pub proof fn tier_exceeds_producers(ns: Seq<NodeView>, root: Seq<char>, u: int, t: nat, w: int)
    requires
        is_tier(ns, root, u, t),
        depends(ns, u, w),
        affected(ns, root, w),
    ensures
        exists|s: nat| is_tier(ns, root, w, s) && s < t,
{
    assert(settled(ns, root, w, (t - 1) as nat));
    least_settled(ns, root, w, (t - 1) as nat);
    let s = choose|s: nat| is_tier(ns, root, w, s);
    if s >= t {
        settled_mono(ns, root, w, (t - 1) as nat, (s - 1) as nat);
    }
}

/// A tier is no larger than its producers demand: a repo at tier `t > 1`
/// depends on an affected repo at tier `t - 1`.
pub proof fn tier_is_reached(ns: Seq<NodeView>, root: Seq<char>, u: int, t: nat)
    requires
        is_tier(ns, root, u, t),
        t > 1,
    ensures
        exists|w: int| #[trigger]
            depends(ns, u, w) && affected(ns, root, w) && is_tier(ns, root, w, (t - 1) as nat),
{
    let w = choose|w: int| #[trigger]
        depends(ns, u, w) && affected(ns, root, w) && !settled(ns, root, w, (t - 2) as nat);
    assert(depends(ns, u, w));
    assert(is_tier(ns, root, w, (t - 1) as nat));
}

/// A repo at tier 1 is a direct consumer of the bumped module.
pub proof fn tier_one_is_direct(ns: Seq<NodeView>, root: Seq<char>, u: int)
    requires
        is_tier(ns, root, u, 1),
    ensures
        direct(ns, root, u),
{
    let n = choose|n: nat| reached(ns, root, u, n);
    if !direct(ns, root, u) {
        let w = choose|w: int| #[trigger]
            depends(ns, u, w) && reached(ns, root, w, (n - 1) as nat);
        assert(affected(ns, root, w));
        assert(settled(ns, root, w, 0));
    }
}

/// Is `c` a chain of affected repos, each depending on the one before it?
pub open spec fn is_chain(ns: Seq<NodeView>, root: Seq<char>, c: Seq<int>) -> bool {
    &&& c.len() > 0
    &&& forall|i: int| 0 <= i < c.len() ==> affected(ns, root, #[trigger] c[i])
    &&& forall|i: int| 0 < i < c.len() ==> depends(ns, #[trigger] c[i], c[i - 1])
}

/// A tier is the length of the longest chain of affected repos that ends in the
/// repo: no chain is longer.
pub proof fn chains_fit_tier(ns: Seq<NodeView>, root: Seq<char>, c: Seq<int>, t: nat)
    requires
        is_chain(ns, root, c),
        is_tier(ns, root, c.last(), t),
    ensures
        c.len() <= t,
    decreases c.len(),
{
    if c.len() > 1 {
        let d = c.drop_last();
        assert(c[c.len() - 1] == c.last());
        assert(d.last() == c[c.len() - 2]);
        assert forall|i: int| 0 <= i < d.len() implies affected(ns, root, #[trigger] d[i]) by {
            assert(d[i] == c[i]);
        }
        assert forall|i: int| 0 < i < d.len() implies depends(ns, #[trigger] d[i], d[i - 1]) by {
            assert(d[i] == c[i] && d[i - 1] == c[i - 1]);
        }
        assert(affected(ns, root, d.last()));
        tier_exceeds_producers(ns, root, c.last(), t, d.last());
        let s = choose|s: nat| is_tier(ns, root, d.last(), s) && s < t;
        chains_fit_tier(ns, root, d, s);
    }
}

/// A tier is the length of the longest chain of affected repos that ends in the
/// repo: one chain has that length.
pub proof fn tier_has_chain(ns: Seq<NodeView>, root: Seq<char>, u: int, t: nat)
    requires
        is_tier(ns, root, u, t),
    ensures
        exists|c: Seq<int>| #[trigger] is_chain(ns, root, c) && c.len() == t && c.last() == u,
    decreases t,
{
    if t == 1 {
        assert(is_chain(ns, root, seq![u]));
    } else {
        tier_is_reached(ns, root, u, t);
        let w = choose|w: int| #[trigger]
            depends(ns, u, w) && affected(ns, root, w) && is_tier(ns, root, w, (t - 1) as nat);
        tier_has_chain(ns, root, w, (t - 1) as nat);
        let d = choose|c: Seq<int>| #[trigger]
            is_chain(ns, root, c) && c.len() == t - 1 && c.last() == w;
        let c = d.push(u);
        assert forall|i: int| 0 <= i < c.len() implies affected(ns, root, #[trigger] c[i]) by {
            if i < d.len() {
                assert(c[i] == d[i]);
            }
        }
        assert forall|i: int| 0 < i < c.len() implies depends(ns, #[trigger] c[i], c[i - 1]) by {
            if i < d.len() {
                assert(c[i] == d[i] && c[i - 1] == d[i - 1]);
            } else {
                assert(c[i - 1] == d.last());
            }
        }
        assert(is_chain(ns, root, c));
    }
}

/// A number of levels that settles every repo that can be ordered among the
/// first `i` nodes.
proof fn common_bound(ns: Seq<NodeView>, root: Seq<char>, i: nat) -> (b: nat)
    ensures
        forall|v: int| 0 <= v < i && #[trigger] ordered(ns, root, v) ==> settled(ns, root, v, b),
    decreases i,
{
    if i == 0 {
        0
    } else {
        let a = common_bound(ns, root, (i - 1) as nat);
        let last: int = i - 1;
        let n = choose|n: nat| settled(ns, root, last, n);
        let b = if a < n { n } else { a };
        assert forall|v: int| 0 <= v < i && #[trigger] ordered(ns, root, v) implies settled(
            ns,
            root,
            v,
            b,
        ) by {
            if v == i - 1 {
                settled_mono(ns, root, v, n, b);
            } else {
                settled_mono(ns, root, v, a, b);
            }
        }
        b
    }
}

/// A repo that cannot be ordered depends on another one that cannot.
pub proof fn stuck_depends_on_stuck(ns: Seq<NodeView>, root: Seq<char>, u: int)
    requires
        stuck(ns, root, u),
    ensures
        exists|w: int| #[trigger] depends(ns, u, w) && stuck(ns, root, w),
{
    let b = common_bound(ns, root, ns.len());
    if forall|w: int| #[trigger]
        depends(ns, u, w) && affected(ns, root, w) ==> ordered(ns, root, w) {
        assert forall|w: int| #[trigger]
            depends(ns, u, w) && affected(ns, root, w) implies settled(ns, root, w, b) by {
            depends_on_vertex(ns, u, w);
            assert(ordered(ns, root, w));
        }
        assert(settled(ns, root, u, b + 1));
    } else {
        let w = choose|w: int| #[trigger]
            depends(ns, u, w) && affected(ns, root, w) && !ordered(ns, root, w);
        assert(depends(ns, u, w));
    }
}

/// Where the dependencies have no cycle — every repo can be given a rank above
/// those of the repos it depends on — every affected repo is ordered.
pub proof fn acyclic_is_ordered(
    ns: Seq<NodeView>,
    root: Seq<char>,
    rank: spec_fn(int) -> nat,
    u: int,
)
    requires
        forall|v: int, w: int| #[trigger] depends(ns, v, w) ==> rank(w) < rank(v),
        affected(ns, root, u),
    ensures
        ordered(ns, root, u),
{
    ranked_is_settled(ns, root, rank, u);
}

proof fn ranked_is_settled(
    ns: Seq<NodeView>,
    root: Seq<char>,
    rank: spec_fn(int) -> nat,
    u: int,
)
    requires
        forall|v: int, w: int| #[trigger] depends(ns, v, w) ==> rank(w) < rank(v),
        affected(ns, root, u),
    ensures
        settled(ns, root, u, rank(u) + 1),
    decreases rank(u),
{
    assert forall|w: int| #[trigger]
        depends(ns, u, w) && affected(ns, root, w) implies settled(ns, root, w, rank(u)) by {
        ranked_is_settled(ns, root, rank, w);
        settled_mono(ns, root, w, rank(w) + 1, rank(u));
    }
}

/// The repo that publishes the bumped module is the source of the wave, not
/// part of it.
pub proof fn root_repo_is_not_ordered(ns: Seq<NodeView>, root: Seq<char>, p: int)
    requires
        producer(ns, root) == Some(p),
    ensures
        !ordered(ns, root, p),
{
    if ordered(ns, root, p) {
        ordered_has_tier(ns, root, p);
        let t = choose|t: nat| is_tier(ns, root, p, t);
        let n = choose|n: nat| reached(ns, root, p, n);
        let d = direct_below(ns, root, p, n, t);
        assert(d != p);
        let e = choose|e: int| 0 <= e < ns[d].edges.len() && (#[trigger] ns[d].edges[e]).module == root;
        assert(producer(ns, ns[d].edges[e].module) == Some(p));
        assert(depends(ns, d, p));
        let s = choose|s: nat| is_tier(ns, root, d, s) && s <= t;
        tier_exceeds_producers(ns, root, d, s, p);
        let r = choose|r: nat| is_tier(ns, root, p, r) && r < s;
        tier_is_unique(ns, root, p, r, t);
    }
}

/// Upstream of an ordered repo there is a direct consumer at no larger tier.
proof fn direct_below(ns: Seq<NodeView>, root: Seq<char>, u: int, n: nat, t: nat) -> (d: int)
    requires
        reached(ns, root, u, n),
        is_tier(ns, root, u, t),
    ensures
        direct(ns, root, d),
        exists|s: nat| is_tier(ns, root, d, s) && s <= t,
    decreases n,
{
    if direct(ns, root, u) {
        u
    } else {
        let w = choose|w: int| #[trigger]
            depends(ns, u, w) && reached(ns, root, w, (n - 1) as nat);
        assert(affected(ns, root, w));
        tier_exceeds_producers(ns, root, u, t, w);
        let s = choose|s: nat| is_tier(ns, root, w, s) && s < t;
        let d = direct_below(ns, root, w, (n - 1) as nat, s);
        let r = choose|r: nat| is_tier(ns, root, d, r) && r <= s;
        assert(is_tier(ns, root, d, r) && r <= t);
        d
    }
}

/// What [`root_repo_is_not_ordered`] says of a plan: no item is the repo that
/// publishes the bumped module.
pub proof fn root_repo_is_not_planned(
    ns: Seq<NodeView>,
    root: Seq<char>,
    target: Seq<char>,
    bump_satisfied: bool,
    p: WavePlanView,
    w: int,
    i: int,
)
    requires
        is_plan(ns, root, target, bump_satisfied, p),
        producer(ns, root) == Some(w),
        0 <= i < p.items.len(),
    ensures
        p.items[i].repo.key() != ns[w].repo.key(),
{
    assert(is_some_item(ns, root, target, bump_satisfied, p.items[i]));
    let u = choose|u: int| is_item(ns, root, target, bump_satisfied, u, p.items[i]);
    producer_is_vertex(ns, root);
    assert(ordered(ns, root, u));
    root_repo_is_not_ordered(ns, root, w);
}

// ─── cycles ─────────────────────────────────────────────────────────────

/// Is `c` a walk upstream along affected repos, each depending on the next?
pub open spec fn is_walk(ns: Seq<NodeView>, root: Seq<char>, c: Seq<int>) -> bool {
    &&& c.len() > 0
    &&& forall|i: int| 0 <= i < c.len() ==> affected(ns, root, #[trigger] c[i])
    &&& forall|i: int| 0 <= i < c.len() - 1 ==> depends(ns, #[trigger] c[i], c[i + 1])
}

/// Does the affected repo `u` stand on a dependency cycle of affected repos, or
/// downstream of one: does a walk from it come to some repo twice?
pub open spec fn reaches_cycle(ns: Seq<NodeView>, root: Seq<char>, u: int) -> bool {
    exists|c: Seq<int>, i: int, j: int|
        #![trigger c[i], c[j], is_walk(ns, root, c)]
        is_walk(ns, root, c) && c[0] == u && 0 <= i < j < c.len() && c[i] == c[j]
}

/// Upstream of a repo that cannot be ordered there are walks of any length, along
/// repos that cannot be ordered either.
proof fn stuck_walk(ns: Seq<NodeView>, root: Seq<char>, u: int, n: nat) -> (c: Seq<int>)
    requires
        stuck(ns, root, u),
    ensures
        is_walk(ns, root, c),
        c.len() == n + 1,
        c[0] == u,
        stuck(ns, root, c.last()),
    decreases n,
{
    if n == 0 {
        seq![u]
    } else {
        let d = stuck_walk(ns, root, u, (n - 1) as nat);
        stuck_depends_on_stuck(ns, root, d.last());
        let w = choose|w: int| #[trigger] depends(ns, d.last(), w) && stuck(ns, root, w);
        let c = d.push(w);
        assert forall|i: int| 0 <= i < c.len() implies affected(ns, root, #[trigger] c[i]) by {
            if i < d.len() {
                assert(c[i] == d[i]);
            }
        }
        assert forall|i: int| 0 <= i < c.len() - 1 implies depends(ns, #[trigger] c[i], c[i + 1]) by {
            assert(c[i] == d[i]);
            if i + 1 < d.len() {
                assert(c[i + 1] == d[i + 1]);
            }
        }
        c
    }
}

/// A list of more numbers below `n` than there are holds one of them twice.
proof fn some_number_twice(c: Seq<int>, n: nat) -> (r: (int, int))
    requires
        c.len() > n,
        forall|i: int| 0 <= i < c.len() ==> 0 <= #[trigger] c[i] < n,
    ensures
        0 <= r.0 < r.1 < c.len(),
        c[r.0] == c[r.1],
{
    if exists|i: int, j: int| 0 <= i < j < c.len() && #[trigger] c[i] == #[trigger] c[j] {
        choose|i: int, j: int| 0 <= i < j < c.len() && #[trigger] c[i] == #[trigger] c[j]
    } else {
        assert(c.no_duplicates());
        c.unique_seq_to_set();
        vstd::set_lib::lemma_int_range(0, n as int);
        let range = vstd::set_lib::set_int_range(0, n as int);
        assert(c.to_set().subset_of(range)) by {
            assert forall|x: int| #[trigger] c.to_set().contains(x) implies range.contains(x) by {
                let i = choose|i: int| 0 <= i < c.len() && c[i] == x;
            }
        }
        vstd::set_lib::lemma_len_subset(c.to_set(), range);
        (0, 0)
    }
}

/// Along a walk from an ordered repo every repo is ordered, each at a smaller
/// tier than the ones before it.
proof fn walk_goes_down(
    ns: Seq<NodeView>,
    root: Seq<char>,
    c: Seq<int>,
    i: int,
    j: int,
    t: nat,
) -> (s: nat)
    requires
        is_walk(ns, root, c),
        0 <= i <= j < c.len(),
        is_tier(ns, root, c[i], t),
    ensures
        is_tier(ns, root, c[j], s),
        s + (j - i) <= t,
    decreases j - i,
{
    if i == j {
        t
    } else {
        let s = walk_goes_down(ns, root, c, i, j - 1, t);
        assert(depends(ns, c[j - 1], c[j - 1 + 1]));
        assert(affected(ns, root, c[j]));
        tier_exceeds_producers(ns, root, c[j - 1], s, c[j]);
        choose|r: nat| is_tier(ns, root, c[j], r) && r < s
    }
}

/// The repos that cannot be ordered are just the affected ones that stand on a
/// dependency cycle or downstream of one.
pub proof fn stuck_is_reaching_a_cycle(ns: Seq<NodeView>, root: Seq<char>, u: int)
    ensures
        stuck(ns, root, u) <==> reaches_cycle(ns, root, u),
{
    if stuck(ns, root, u) {
        let c = stuck_walk(ns, root, u, ns.len());
        assert forall|i: int| 0 <= i < c.len() implies 0 <= #[trigger] c[i] < ns.len() by {
            affected_is_vertex(ns, root, c[i]);
        }
        let (i, j) = some_number_twice(c, ns.len());
        assert(c[i] == c[j] && is_walk(ns, root, c));
    }
    if reaches_cycle(ns, root, u) {
        let (c, i, j) = choose|c: Seq<int>, i: int, j: int|
            #![trigger c[i], c[j], is_walk(ns, root, c)]
            is_walk(ns, root, c) && c[0] == u && 0 <= i < j < c.len() && c[i] == c[j];
        assert(affected(ns, root, c[0]));
        if ordered(ns, root, u) {
            ordered_has_tier(ns, root, u);
            let t = choose|t: nat| is_tier(ns, root, u, t);
            let a = walk_goes_down(ns, root, c, 0, i, t);
            let b = walk_goes_down(ns, root, c, i, j, a);
            tier_is_unique(ns, root, c[i], a, b);
        }
    }
}

/// A plan's `cycle` lists just the keys of the repos that stand on a dependency
/// cycle of affected repos, or downstream of one.
pub proof fn cycle_lists_what_reaches_a_cycle(
    ns: Seq<NodeView>,
    root: Seq<char>,
    target: Seq<char>,
    bump_satisfied: bool,
    p: WavePlanView,
    k: Seq<char>,
)
    requires
        is_plan(ns, root, target, bump_satisfied, p),
    ensures
        p.cycle.contains(k) <==> exists|u: int| #[trigger]
            reaches_cycle(ns, root, u) && ns[u].repo.key() == k,
{
    if p.cycle.contains(k) {
        let u = choose|u: int| #[trigger] stuck(ns, root, u) && ns[u].repo.key() == k;
        stuck_is_reaching_a_cycle(ns, root, u);
        assert(reaches_cycle(ns, root, u) && ns[u].repo.key() == k);
    }
    if exists|u: int| #[trigger] reaches_cycle(ns, root, u) && ns[u].repo.key() == k {
        let u = choose|u: int| #[trigger] reaches_cycle(ns, root, u) && ns[u].repo.key() == k;
        stuck_is_reaching_a_cycle(ns, root, u);
        assert(stuck(ns, root, u) && ns[u].repo.key() == k);
    }
}

// ─── the order of the nodes ─────────────────────────────────────────────

/// Do no two nodes share a repo key?
pub open spec fn keys_differ(ns: Seq<NodeView>) -> bool {
    forall|i: int, j: int|
        #![trigger ns[i], ns[j]]
        0 <= i < j < ns.len() ==> ns[i].repo.key() != ns[j].repo.key()
}

/// Do no two nodes publish the same module?
pub open spec fn names_differ(ns: Seq<NodeView>) -> bool {
    forall|i: int, j: int|
        #![trigger ns[i], ns[j]]
        0 <= i < j < ns.len() && ns[i].published is Some ==> ns[i].published != ns[j].published
}

/// Are the two lists the same nodes, each list without two of one key or name?
spec fn alike(ns: Seq<NodeView>, ms: Seq<NodeView>) -> bool {
    &&& keys_differ(ns)
    &&& keys_differ(ms)
    &&& names_differ(ns)
    &&& names_differ(ms)
    &&& forall|n: NodeView| #[trigger] ns.contains(n) <==> ms.contains(n)
}

/// Is the node `u` of the one list the node `v` of the other?
spec fn is_same(ns: Seq<NodeView>, ms: Seq<NodeView>, u: int, v: int) -> bool {
    0 <= u < ns.len() && 0 <= v < ms.len() && ns[u] == ms[v]
}

proof fn partner(ns: Seq<NodeView>, ms: Seq<NodeView>, u: int) -> (v: int)
    requires
        alike(ns, ms),
        0 <= u < ns.len(),
    ensures
        is_same(ns, ms, u, v),
{
    assert(ns.contains(ns[u]));
    choose|v: int| 0 <= v < ms.len() && ms[v] == ns[u]
}

/// Where keys differ every node stands for its repo.
proof fn all_are_vertices(ns: Seq<NodeView>, u: int)
    requires
        keys_differ(ns),
        0 <= u < ns.len(),
    ensures
        is_vertex(ns, u),
{
    let k = ns[u].repo.key();
    last_with_key_is(ns, k);
    if let Some(i) = last_with_key(ns, k) {
        if i < u {
            assert(ns[u].repo.key() != k);
        } else if u < i {
            assert(ns[u].repo.key() != ns[i].repo.key());
        }
    } else {
        assert(ns[u].repo.key() != k);
    }
}

/// Where names differ too the producer of a module is the node that publishes it.
proof fn producer_publishes(ns: Seq<NodeView>, m: Seq<char>, w: int)
    requires
        keys_differ(ns),
        names_differ(ns),
    ensures
        producer(ns, m) == Some(w) <==> 0 <= w < ns.len() && ns[w].published == Some(m),
{
    last_publisher_is(ns, m);
    match last_publisher(ns, m) {
        Some(p) => {
            all_are_vertices(ns, p);
            if 0 <= w < ns.len() && ns[w].published == Some(m) && w != p {
                if w < p {
                    assert(ns[w].published != ns[p].published);
                } else {
                    assert(ns[w].published != Some(m));
                }
            }
        },
        None => {
            if 0 <= w < ns.len() {
                assert(ns[w].published != Some(m));
            }
        },
    }
}

proof fn producer_same(ns: Seq<NodeView>, ms: Seq<NodeView>, m: Seq<char>, u: int, v: int)
    requires
        alike(ns, ms),
        is_same(ns, ms, u, v),
    ensures
        producer(ns, m) == Some(u) <==> producer(ms, m) == Some(v),
{
    producer_publishes(ns, m, u);
    producer_publishes(ms, m, v);
}

proof fn depends_same(ns: Seq<NodeView>, ms: Seq<NodeView>, u: int, v: int, w: int, x: int)
    requires
        alike(ns, ms),
        is_same(ns, ms, u, v),
        is_same(ns, ms, w, x),
        depends(ns, u, w),
    ensures
        depends(ms, v, x),
{
    all_are_vertices(ms, v);
    if v == x {
        assert(ns[u].repo.key() == ns[w].repo.key());
    }
    let e = choose|e: int|
        0 <= e < ns[u].edges.len() && producer(ns, (#[trigger] ns[u].edges[e]).module) == Some(w);
    producer_same(ns, ms, ns[u].edges[e].module, w, x);
    assert(producer(ms, ms[v].edges[e].module) == Some(x));
}

proof fn direct_same(ns: Seq<NodeView>, ms: Seq<NodeView>, root: Seq<char>, u: int, v: int)
    requires
        alike(ns, ms),
        is_same(ns, ms, u, v),
        direct(ns, root, u),
    ensures
        direct(ms, root, v),
{
    all_are_vertices(ms, v);
    producer_same(ns, ms, root, u, v);
    let e = choose|e: int|
        0 <= e < ns[u].edges.len() && (#[trigger] ns[u].edges[e]).module == root;
    assert(ms[v].edges[e].module == root);
}

proof fn reached_same(
    ns: Seq<NodeView>,
    ms: Seq<NodeView>,
    root: Seq<char>,
    u: int,
    v: int,
    n: nat,
)
    requires
        alike(ns, ms),
        is_same(ns, ms, u, v),
        reached(ns, root, u, n),
    ensures
        reached(ms, root, v, n),
    decreases n,
{
    if direct(ns, root, u) {
        direct_same(ns, ms, root, u, v);
    } else {
        let w = choose|w: int| #[trigger]
            depends(ns, u, w) && reached(ns, root, w, (n - 1) as nat);
        depends_on_vertex(ns, u, w);
        let x = partner(ns, ms, w);
        reached_same(ns, ms, root, w, x, (n - 1) as nat);
        depends_same(ns, ms, u, v, w, x);
    }
}

proof fn affected_same(ns: Seq<NodeView>, ms: Seq<NodeView>, root: Seq<char>, u: int, v: int)
    requires
        alike(ns, ms),
        is_same(ns, ms, u, v),
    ensures
        affected(ns, root, u) == affected(ms, root, v),
{
    if affected(ns, root, u) {
        let n = choose|n: nat| reached(ns, root, u, n);
        reached_same(ns, ms, root, u, v, n);
    }
    if affected(ms, root, v) {
        let n = choose|n: nat| reached(ms, root, v, n);
        reached_same(ms, ns, root, v, u, n);
    }
}

proof fn settled_same(
    ns: Seq<NodeView>,
    ms: Seq<NodeView>,
    root: Seq<char>,
    u: int,
    v: int,
    n: nat,
)
    requires
        alike(ns, ms),
        is_same(ns, ms, u, v),
    ensures
        settled(ns, root, u, n) == settled(ms, root, v, n),
    decreases n,
{
    settled_over(ns, ms, root, u, v, n);
    settled_over(ms, ns, root, v, u, n);
}

proof fn settled_over(
    ns: Seq<NodeView>,
    ms: Seq<NodeView>,
    root: Seq<char>,
    u: int,
    v: int,
    n: nat,
)
    requires
        alike(ns, ms),
        is_same(ns, ms, u, v),
    ensures
        settled(ns, root, u, n) ==> settled(ms, root, v, n),
    decreases n,
{
    if settled(ns, root, u, n) {
        affected_same(ns, ms, root, u, v);
        assert forall|x: int| #[trigger]
            depends(ms, v, x) && affected(ms, root, x) implies settled(
            ms,
            root,
            x,
            (n - 1) as nat,
        ) by {
            depends_on_vertex(ms, v, x);
            let w = partner(ms, ns, x);
            depends_same(ms, ns, v, u, x, w);
            affected_same(ns, ms, root, w, x);
            settled_over(ns, ms, root, w, x, (n - 1) as nat);
        }
    }
}

proof fn ordered_same(ns: Seq<NodeView>, ms: Seq<NodeView>, root: Seq<char>, u: int, v: int)
    requires
        alike(ns, ms),
        is_same(ns, ms, u, v),
    ensures
        ordered(ns, root, u) == ordered(ms, root, v),
{
    if ordered(ns, root, u) {
        let n = choose|n: nat| settled(ns, root, u, n);
        settled_same(ns, ms, root, u, v, n);
    }
    if ordered(ms, root, v) {
        let n = choose|n: nat| settled(ms, root, v, n);
        settled_same(ns, ms, root, u, v, n);
    }
}

proof fn takes_part_same(ns: Seq<NodeView>, ms: Seq<NodeView>, root: Seq<char>, m: Seq<char>)
    requires
        alike(ns, ms),
    ensures
        takes_part(ns, root, m) == takes_part(ms, root, m),
{
    producer_is_vertex(ns, m);
    producer_is_vertex(ms, m);
    if let Some(w) = producer(ns, m) {
        let x = partner(ns, ms, w);
        producer_same(ns, ms, m, w, x);
        affected_same(ns, ms, root, w, x);
    }
    if let Some(x) = producer(ms, m) {
        let w = partner(ms, ns, x);
        producer_same(ns, ms, m, w, x);
    }
}

proof fn manifest_same(
    ns: Seq<NodeView>,
    ms: Seq<NodeView>,
    root: Seq<char>,
    u: int,
    v: int,
    n: nat,
)
    requires
        alike(ns, ms),
        is_same(ns, ms, u, v),
    ensures
        manifest_among(ns, root, u, n) == manifest_among(ms, root, v, n),
    decreases n,
{
    if n > 0 {
        manifest_same(ns, ms, root, u, v, (n - 1) as nat);
        takes_part_same(ns, ms, root, ns[u].edges[n - 1].module);
    }
}

/// Two lists in the same strict order with the same members are equal.
proof fn same_members_same_list<T>(a: Seq<T>, b: Seq<T>, lt: spec_fn(T, T) -> bool)
    requires
        forall|x: T| !#[trigger] lt(x, x),
        forall|x: T, y: T, z: T| #[trigger] lt(x, y) && #[trigger] lt(y, z) ==> lt(x, z),
        forall|i: int, j: int|
            #![trigger a[i], a[j]]
            0 <= i < j < a.len() ==> lt(a[i], a[j]),
        forall|i: int, j: int|
            #![trigger b[i], b[j]]
            0 <= i < j < b.len() ==> lt(b[i], b[j]),
        forall|x: T| #[trigger] a.contains(x) <==> b.contains(x),
    ensures
        a == b,
    decreases a.len(),
{
    if a.len() == 0 {
        if b.len() > 0 {
            assert(b.contains(b[0]));
            assert(a.contains(b[0]));
        }
        assert(a =~= b);
    } else {
        assert(a.contains(a[0]));
        let j = choose|j: int| 0 <= j < b.len() && b[j] == a[0];
        assert(b.contains(b[0]));
        assert(a.contains(b[0]));
        let i = choose|i: int| 0 <= i < a.len() && a[i] == b[0];
        if j > 0 {
            assert(lt(b[0], b[j]));
            if i > 0 {
                assert(lt(a[0], a[i]));
            }
            assert(lt(a[0], a[0]));
        }
        let c = a.skip(1);
        let d = b.skip(1);
        assert forall|x: T| #[trigger] c.contains(x) <==> d.contains(x) by {
            if c.contains(x) {
                let k = choose|k: int| 0 <= k < c.len() && c[k] == x;
                assert(a[k + 1] == x);
                assert(lt(a[0], a[k + 1]));
                assert(a.contains(x));
                let l = choose|l: int| 0 <= l < b.len() && b[l] == x;
                assert(d[l - 1] == x);
            }
            if d.contains(x) {
                let k = choose|k: int| 0 <= k < d.len() && d[k] == x;
                assert(b[k + 1] == x);
                assert(lt(b[0], b[k + 1]));
                assert(b.contains(x));
                assert(a.contains(x));
                let l = choose|l: int| 0 <= l < a.len() && a[l] == x;
                assert(c[l - 1] == x);
            }
        }
        assert forall|i: int, j: int|
            #![trigger c[i], c[j]]
            0 <= i < j < c.len() implies lt(c[i], c[j]) by {
            assert(lt(a[i + 1], a[j + 1]));
        }
        assert forall|i: int, j: int|
            #![trigger d[i], d[j]]
            0 <= i < j < d.len() implies lt(d[i], d[j]) by {
            assert(lt(b[i + 1], b[j + 1]));
        }
        same_members_same_list(c, d, lt);
        assert(a =~= seq![a[0]] + c);
        assert(b =~= seq![b[0]] + d);
    }
}

proof fn ascending_is_unique(a: Seq<Seq<char>>, b: Seq<Seq<char>>)
    requires
        ascending(a),
        ascending(b),
        forall|m: Seq<char>| #[trigger] a.contains(m) <==> b.contains(m),
    ensures
        a == b,
{
    let lt = |x: Seq<char>, y: Seq<char>| text::text_lt(x, y);
    assert forall|x: Seq<char>| !#[trigger] lt(x, x) by {
        text::text_lt_irreflexive(x);
    }
    assert forall|x: Seq<char>, y: Seq<char>, z: Seq<char>| #[trigger]
        lt(x, y) && #[trigger] lt(y, z) implies lt(x, z) by {
        text::text_lt_transitive(x, y, z);
    }
    same_members_same_list(a, b, lt);
}

/// A repo's entry in a plan is the same for both lists, and there is but one.
proof fn item_same(
    ns: Seq<NodeView>,
    ms: Seq<NodeView>,
    root: Seq<char>,
    target: Seq<char>,
    bump_satisfied: bool,
    u: int,
    v: int,
    a: PlanItemView,
    b: PlanItemView,
)
    requires
        alike(ns, ms),
        is_same(ns, ms, u, v),
        is_item(ns, root, target, bump_satisfied, u, a),
        is_item(ms, root, target, bump_satisfied, v, b),
    ensures
        a == b,
{
    settled_same(ns, ms, root, u, v, a.tier as nat);
    settled_same(ns, ms, root, u, v, (a.tier - 1) as nat);
    tier_is_unique(ms, root, v, a.tier as nat, b.tier as nat);
    manifest_same(ns, ms, root, u, v, ns[u].edges.len());
    assert forall|m: Seq<char>| #[trigger]
        a.upstream_modules.contains(m) <==> b.upstream_modules.contains(m) by {
        takes_part_same(ns, ms, root, m);
    }
    ascending_is_unique(a.upstream_modules, b.upstream_modules);
}

proof fn items_over(
    ns: Seq<NodeView>,
    ms: Seq<NodeView>,
    root: Seq<char>,
    target: Seq<char>,
    bump_satisfied: bool,
    p: WavePlanView,
    q: WavePlanView,
)
    requires
        alike(ns, ms),
        is_plan(ns, root, target, bump_satisfied, p),
        is_plan(ms, root, target, bump_satisfied, q),
    ensures
        forall|x: PlanItemView| #[trigger] p.items.contains(x) ==> q.items.contains(x),
        forall|k: Seq<char>| #[trigger] p.cycle.contains(k) ==> q.cycle.contains(k),
{
    assert forall|x: PlanItemView| #[trigger] p.items.contains(x) implies q.items.contains(x) by {
        let i = choose|i: int| 0 <= i < p.items.len() && p.items[i] == x;
        assert(is_some_item(ns, root, target, bump_satisfied, p.items[i]));
        let u = choose|u: int| is_item(ns, root, target, bump_satisfied, u, p.items[i]);
        assert(settled(ns, root, u, x.tier as nat));
        assert(ordered(ns, root, u));
        let v = partner(ns, ms, u);
        ordered_same(ns, ms, root, u, v);
        let j = choose|j: int|
            0 <= j < q.items.len() && is_item(
                ms,
                root,
                target,
                bump_satisfied,
                v,
                #[trigger] q.items[j],
            );
        item_same(ns, ms, root, target, bump_satisfied, u, v, x, q.items[j]);
    }
    assert forall|k: Seq<char>| #[trigger] p.cycle.contains(k) implies q.cycle.contains(k) by {
        let u = choose|u: int| #[trigger] stuck(ns, root, u) && ns[u].repo.key() == k;
        affected_is_vertex(ns, root, u);
        let v = partner(ns, ms, u);
        affected_same(ns, ms, root, u, v);
        ordered_same(ns, ms, root, u, v);
        assert(stuck(ms, root, v) && ms[v].repo.key() == k);
    }
}

/// The plan does not depend on the order of the nodes: of two lists of the same
/// nodes, no two with one key or one name, the plans have the same items in the
/// same order, the same root repo, and the same repos that cannot be ordered.
pub proof fn node_order_does_not_matter(
    ns: Seq<NodeView>,
    ms: Seq<NodeView>,
    root: Seq<char>,
    target: Seq<char>,
    bump_satisfied: bool,
    p: WavePlanView,
    q: WavePlanView,
)
    requires
        ns.to_multiset() == ms.to_multiset(),
        keys_differ(ns),
        names_differ(ns),
        is_plan(ns, root, target, bump_satisfied, p),
        is_plan(ms, root, target, bump_satisfied, q),
    ensures
        p.items == q.items,
        p.root_repo == q.root_repo,
        p.root_module == q.root_module,
        p.target_version == q.target_version,
        p.cycle.to_set() == q.cycle.to_set(),
        p.cycle.len() == q.cycle.len(),
{
    permuted_is_alike(ns, ms);
    items_over(ns, ms, root, target, bump_satisfied, p, q);
    items_over(ms, ns, root, target, bump_satisfied, q, p);
    let lt = |x: PlanItemView, y: PlanItemView| item_before(x, y);
    assert forall|x: PlanItemView| !#[trigger] lt(x, x) by {
        text::text_lt_irreflexive(x.repo.key());
    }
    assert forall|x: PlanItemView, y: PlanItemView, z: PlanItemView| #[trigger]
        lt(x, y) && #[trigger] lt(y, z) implies lt(x, z) by {
        if x.tier == y.tier && y.tier == z.tier {
            text::text_lt_transitive(x.repo.key(), y.repo.key(), z.repo.key());
        }
    }
    same_members_same_list(p.items, q.items, lt);
    producer_is_vertex(ns, root);
    producer_is_vertex(ms, root);
    if let Some(w) = producer(ns, root) {
        let x = partner(ns, ms, w);
        producer_same(ns, ms, root, w, x);
    }
    if let Some(x) = producer(ms, root) {
        let w = partner(ms, ns, x);
        producer_same(ns, ms, root, w, x);
    }
    assert(p.cycle.to_set() =~= q.cycle.to_set());
    p.cycle.unique_seq_to_set();
    q.cycle.unique_seq_to_set();
}

/// A rearranged list is a list of the same nodes, and keys and names still
/// differ in it.
proof fn permuted_is_alike(ns: Seq<NodeView>, ms: Seq<NodeView>)
    requires
        ns.to_multiset() == ms.to_multiset(),
        keys_differ(ns),
        names_differ(ns),
    ensures
        alike(ns, ms),
{
    broadcast use vstd::seq_lib::group_to_multiset_ensures;

    assert forall|n: NodeView| #[trigger] ns.contains(n) <==> ms.contains(n) by {
        assert(ns.contains(n) <==> ns.to_multiset().count(n) > 0);
        assert(ms.contains(n) <==> ms.to_multiset().count(n) > 0);
    }
    assert forall|i: int, j: int| 0 <= i < ns.len() && 0 <= j < ns.len() && i != j implies ns[i]
        != ns[j] by {
        if i < j {
            assert(ns[i].repo.key() != ns[j].repo.key());
        } else {
            assert(ns[j].repo.key() != ns[i].repo.key());
        }
    }
    assert(ns.no_duplicates());
    ns.lemma_multiset_has_no_duplicates();
    ms.lemma_multiset_has_no_duplicates_conv();
    assert forall|i: int, j: int|
        #![trigger ms[i], ms[j]]
        0 <= i < j < ms.len() implies ms[i].repo.key() != ms[j].repo.key() && (
    ms[i].published is Some ==> ms[i].published != ms[j].published) by {
        assert(ms.contains(ms[i]) && ms.contains(ms[j]));
        assert(ns.contains(ms[i]) && ns.contains(ms[j]));
        let a = choose|a: int| 0 <= a < ns.len() && ns[a] == ms[i];
        let b = choose|b: int| 0 <= b < ns.len() && ns[b] == ms[j];
        assert(ms[i] != ms[j]);
        if a < b {
            assert(ns[a].repo.key() != ns[b].repo.key());
        } else {
            assert(ns[b].repo.key() != ns[a].repo.key());
        }
    }
}

// ─── computing the plan ─────────────────────────────────────────────────

/// The nodes' keys, which of them stand for a repo, and the producer of each
/// edge's module.
struct Links {
    keys: Vec<String>,
    vertex: Vec<bool>,
    producers: Vec<Vec<Option<usize>>>,
}

spec fn index_of(o: Option<usize>) -> Option<int> {
    match o {
        Some(i) => Some(i as int),
        None => None,
    }
}

spec fn producers_of(ns: Seq<NodeView>, u: int, list: Seq<Option<usize>>) -> bool {
    &&& list.len() == ns[u].edges.len()
    &&& forall|e: int|
        0 <= e < list.len() ==> index_of(#[trigger] list[e]) == producer(
            ns,
            ns[u].edges[e].module,
        )
}

impl Links {
    spec fn of(&self, ns: Seq<NodeView>) -> bool {
        &&& self.keys@.len() == ns.len()
        &&& forall|i: int| 0 <= i < ns.len() ==> (#[trigger] self.keys@[i])@ == ns[i].repo.key()
        &&& self.vertex@.len() == ns.len()
        &&& forall|i: int| 0 <= i < ns.len() ==> #[trigger] self.vertex@[i] == is_vertex(ns, i)
        &&& self.producers@.len() == ns.len()
        &&& forall|i: int|
            0 <= i < ns.len() ==> producers_of(ns, i, (#[trigger] self.producers@[i])@)
    }
}

/// The last node with the key `k`.
fn find_key(keys: &Vec<String>, k: &String, Ghost(ns): Ghost<Seq<NodeView>>) -> (r: Option<usize>)
    requires
        keys@.len() == ns.len(),
        forall|i: int| 0 <= i < ns.len() ==> (#[trigger] keys@[i])@ == ns[i].repo.key(),
    ensures
        index_of(r) == last_with_key(ns, k@),
{
    let mut i: usize = keys.len();
    assert(ns.take(ns.len() as int) =~= ns);
    while i > 0
        invariant
            i <= keys@.len() == ns.len(),
            forall|i: int| 0 <= i < ns.len() ==> (#[trigger] keys@[i])@ == ns[i].repo.key(),
            last_with_key(ns, k@) == last_with_key(ns.take(i as int), k@),
        decreases i,
    {
        i = i - 1;
        assert(ns.take(i + 1).drop_last() =~= ns.take(i as int));
        if keys[i] == *k {
            return Some(i);
        }
    }
    None
}

/// The last node that publishes the module `m`.
fn find_publisher(nodes: &Vec<RepoNode>, m: &String) -> (r: Option<usize>)
    ensures
        index_of(r) == last_publisher(nodes.deep_view(), m@),
{
    let ghost ns = nodes.deep_view();
    let mut i: usize = nodes.len();
    assert(ns.take(ns.len() as int) =~= ns);
    while i > 0
        invariant
            i <= nodes@.len() == ns.len(),
            ns == nodes.deep_view(),
            last_publisher(ns, m@) == last_publisher(ns.take(i as int), m@),
        decreases i,
    {
        i = i - 1;
        assert(ns.take(i + 1).drop_last() =~= ns.take(i as int));
        if let Some(p) = &nodes[i].published {
            if *p == *m {
                return Some(i);
            }
        }
    }
    None
}

/// The node that stands for the repo that publishes `m`.
fn find_producer(nodes: &Vec<RepoNode>, keys: &Vec<String>, m: &String) -> (r: Option<usize>)
    requires
        keys@.len() == nodes@.len(),
        forall|i: int|
            0 <= i < keys@.len() ==> (#[trigger] keys@[i])@ == nodes.deep_view()[i].repo.key(),
    ensures
        index_of(r) == producer(nodes.deep_view(), m@),
        r matches Some(w) ==> w < nodes@.len(),
{
    let ghost ns = nodes.deep_view();
    proof {
        last_publisher_is(ns, m@);
        producer_is_vertex(ns, m@);
    }
    match find_publisher(nodes, m) {
        Some(p) => find_key(keys, &keys[p], Ghost(ns)),
        None => None,
    }
}

/// The key of every node.
fn all_keys(nodes: &Vec<RepoNode>) -> (r: Vec<String>)
    ensures
        r@.len() == nodes@.len(),
        forall|i: int| 0 <= i < r@.len() ==> (#[trigger] r@[i])@ == nodes.deep_view()[i].repo.key(),
{
    let mut out: Vec<String> = Vec::new();
    let mut i: usize = 0;
    while i < nodes.len()
        invariant
            i <= nodes@.len(),
            out@.len() == i,
            forall|j: int|
                0 <= j < i ==> (#[trigger] out@[j])@ == nodes.deep_view()[j].repo.key(),
        decreases nodes@.len() - i,
    {
        out.push(repo_key(&nodes[i].repo));
        i = i + 1;
    }
    out
}

/// The producer of each edge of the node `u`.
fn edge_producers(nodes: &Vec<RepoNode>, keys: &Vec<String>, u: usize) -> (r: Vec<Option<usize>>)
    requires
        u < nodes@.len(),
        keys@.len() == nodes@.len(),
        forall|i: int|
            0 <= i < keys@.len() ==> (#[trigger] keys@[i])@ == nodes.deep_view()[i].repo.key(),
    ensures
        producers_of(nodes.deep_view(), u as int, r@),
{
    let ghost ns = nodes.deep_view();
    let edges = &nodes[u].edges;
    let mut out: Vec<Option<usize>> = Vec::new();
    let mut e: usize = 0;
    while e < edges.len()
        invariant
            u < nodes@.len(),
            keys@.len() == nodes@.len(),
            forall|i: int|
                0 <= i < keys@.len() ==> (#[trigger] keys@[i])@ == nodes.deep_view()[i].repo.key(),
            ns == nodes.deep_view(),
            edges.deep_view() == ns[u as int].edges,
            e <= edges@.len() == ns[u as int].edges.len(),
            out@.len() == e,
            forall|j: int|
                0 <= j < e ==> index_of(#[trigger] out@[j]) == producer(
                    ns,
                    ns[u as int].edges[j].module,
                ),
        decreases edges@.len() - e,
    {
        assert(edges.deep_view()[e as int] == edges@[e as int].deep_view());
        out.push(find_producer(nodes, keys, &edges[e].module));
        e = e + 1;
    }
    out
}

/// Indexes the nodes.
fn link(nodes: &Vec<RepoNode>) -> (r: Links)
    ensures
        r.of(nodes.deep_view()),
{
    let ghost ns = nodes.deep_view();
    let keys = all_keys(nodes);
    let mut vertex: Vec<bool> = Vec::new();
    let mut producers: Vec<Vec<Option<usize>>> = Vec::new();
    let mut i: usize = 0;
    while i < nodes.len()
        invariant
            i <= nodes@.len() == ns.len(),
            ns == nodes.deep_view(),
            keys@.len() == ns.len(),
            forall|j: int| 0 <= j < ns.len() ==> (#[trigger] keys@[j])@ == ns[j].repo.key(),
            vertex@.len() == i,
            forall|j: int| 0 <= j < i ==> #[trigger] vertex@[j] == is_vertex(ns, j),
            producers@.len() == i,
            forall|j: int| 0 <= j < i ==> producers_of(ns, j, (#[trigger] producers@[j])@),
        decreases nodes@.len() - i,
    {
        let is_last = match find_key(&keys, &keys[i], Ghost(ns)) {
            Some(j) => j == i,
            None => false,
        };
        vertex.push(is_last);
        producers.push(edge_producers(nodes, &keys, i));
        i = i + 1;
    }
    Links { keys, vertex, producers }
}

/// Does the repo `u` have an edge on the module `root`?
fn lists_module(edges: &Vec<DepEdge>, root: &String) -> (r: bool)
    ensures
        r == exists|e: int| 0 <= e < edges@.len() && (#[trigger] edges.deep_view()[e]).module == root@,
{
    let mut e: usize = 0;
    while e < edges.len()
        invariant
            e <= edges@.len(),
            forall|j: int| 0 <= j < e ==> (#[trigger] edges.deep_view()[j]).module != root@,
        decreases edges@.len() - e,
    {
        if edges[e].module == *root {
            assert(edges.deep_view()[e as int].module == root@);
            return true;
        }
        e = e + 1;
    }
    false
}

/// The number of entries of `s` that are `x`.
spec fn count_of<T>(s: Seq<T>, x: T) -> nat
    decreases s.len(),
{
    if s.len() == 0 {
        0
    } else {
        count_of(s.drop_last(), x) + (if s.last() == x {
            1nat
        } else {
            0nat
        })
    }
}

proof fn count_of_bound<T>(s: Seq<T>, x: T)
    ensures
        count_of(s, x) <= s.len(),
    decreases s.len(),
{
    if s.len() > 0 {
        count_of_bound(s.drop_last(), x);
    }
}

proof fn count_of_update<T>(s: Seq<T>, x: T, i: int, v: T)
    requires
        0 <= i < s.len(),
        s[i] == x,
        v != x,
    ensures
        count_of(s.update(i, v), x) + 1 == count_of(s, x),
    decreases s.len(),
{
    if i == s.len() - 1 {
        assert(s.update(i, v).drop_last() =~= s.drop_last());
    } else {
        assert(s.update(i, v).drop_last() =~= s.drop_last().update(i, v));
        count_of_update(s.drop_last(), x, i, v);
    }
}

impl Links {
    /// Does `u` depend on a repo that is set in `flags`?
    fn any_producer(&self, u: usize, flags: &Vec<bool>, Ghost(ns): Ghost<Seq<NodeView>>) -> (r: bool)
        requires
            self.of(ns),
            u < ns.len(),
            flags@.len() == ns.len(),
            is_vertex(ns, u as int),
        ensures
            r == exists|w: int| #[trigger] depends(ns, u as int, w) && flags@[w],
    {
        let list = &self.producers[u];
        let mut e: usize = 0;
        while e < list.len()
            invariant
                self.of(ns),
                u < ns.len(),
                flags@.len() == ns.len(),
                is_vertex(ns, u as int),
                list@ == self.producers@[u as int]@,
                producers_of(ns, u as int, list@),
                e <= list@.len(),
                forall|j: int|
                    0 <= j < e ==> !(index_of(#[trigger] list@[j]) matches Some(w) && w != u
                        && flags@[w]),
            decreases list@.len() - e,
        {
            proof {
                producer_is_vertex(ns, ns[u as int].edges[e as int].module);
                assert(index_of(list@[e as int]) == producer(ns, ns[u as int].edges[e as int].module));
            }
            if let Some(w) = list[e] {
                if w != u && flags[w] {
                    assert(depends(ns, u as int, w as int));
                    return true;
                }
            }
            e = e + 1;
        }
        assert forall|w: int| #[trigger] depends(ns, u as int, w) implies !flags@[w] by {
            let e = choose|e: int|
                0 <= e < ns[u as int].edges.len() && producer(
                    ns,
                    (#[trigger] ns[u as int].edges[e]).module,
                ) == Some(w);
            assert(index_of(list@[e]) == Some(w));
        }
        false
    }

    /// Marks every repo with a marked producer; says whether any was new.
    fn spread(
        &self,
        aff: &mut Vec<bool>,
        Ghost(ns): Ghost<Seq<NodeView>>,
        Ghost(root): Ghost<Seq<char>>,
    ) -> (changed: bool)
        requires
            self.of(ns),
            old(aff)@.len() == ns.len(),
            forall|u: int| 0 <= u < ns.len() && #[trigger] old(aff)@[u] ==> affected(ns, root, u),
        ensures
            final(aff)@.len() == ns.len(),
            forall|u: int| 0 <= u < ns.len() && #[trigger] final(aff)@[u] ==> affected(ns, root, u),
            forall|u: int| 0 <= u < ns.len() && #[trigger] old(aff)@[u] ==> final(aff)@[u],
            changed ==> count_of(final(aff)@, false) < count_of(old(aff)@, false),
            !changed ==> forall|u: int, w: int| #[trigger]
                depends(ns, u, w) && final(aff)@[w] ==> final(aff)@[u],
    {
        let ghost before = aff@;
        let mut changed = false;
        let mut u: usize = 0;
        while u < aff.len()
            invariant
                self.of(ns),
                u <= aff@.len() == ns.len(),
                before.len() == ns.len(),
                forall|v: int| 0 <= v < ns.len() && #[trigger] aff@[v] ==> affected(ns, root, v),
                forall|v: int| 0 <= v < ns.len() && #[trigger] before[v] ==> aff@[v],
                changed ==> count_of(aff@, false) < count_of(before, false),
                !changed ==> aff@ == before && forall|v: int, w: int|
                    v < u && #[trigger] depends(ns, v, w) && aff@[w] ==> aff@[v],
            decreases aff@.len() - u,
        {
            if self.vertex[u] && !aff[u] && self.any_producer(u, aff, Ghost(ns)) {
                proof {
                    let w = choose|w: int| #[trigger] depends(ns, u as int, w) && aff@[w];
                    depends_on_vertex(ns, u as int, w);
                    affected_spreads(ns, root, u as int, w);
                    count_of_update(aff@, false, u as int, true);
                }
                aff.set(u, true);
                changed = true;
            }
            u = u + 1;
        }
        proof {
            assert forall|u: int, w: int| #[trigger]
                depends(ns, u, w) && !changed && aff@[w] implies aff@[u] by {
                depends_on_vertex(ns, u, w);
            }
        }
        changed
    }
}

/// Which nodes the bump of `root` reaches.
fn mark_affected(nodes: &Vec<RepoNode>, links: &Links, root: &String) -> (aff: Vec<bool>)
    requires
        links.of(nodes.deep_view()),
    ensures
        aff@.len() == nodes@.len(),
        forall|u: int|
            0 <= u < aff@.len() ==> #[trigger] aff@[u] == affected(nodes.deep_view(), root@, u),
{
    let ghost ns = nodes.deep_view();
    let source = find_producer(nodes, &links.keys, root);
    let mut aff: Vec<bool> = Vec::new();
    let mut u: usize = 0;
    while u < nodes.len()
        invariant
            links.of(ns),
            index_of(source) == producer(ns, root@),
            ns == nodes.deep_view(),
            u <= nodes@.len() == ns.len(),
            aff@.len() == u,
            forall|v: int| 0 <= v < u ==> #[trigger] aff@[v] == direct(ns, root@, v),
        decreases nodes@.len() - u,
    {
        assert(ns[u as int].edges == nodes@[u as int].edges.deep_view());
        let is_source = match source {
            Some(w) => w == u,
            None => false,
        };
        aff.push(links.vertex[u] && !is_source && lists_module(&nodes[u].edges, root));
        u = u + 1;
    }
    proof {
        assert forall|v: int| 0 <= v < ns.len() && #[trigger] aff@[v] implies affected(
            ns,
            root@,
            v,
        ) by {
            assert(reached(ns, root@, v, 0));
        }
    }
    loop
        invariant
            links.of(ns),
            aff@.len() == ns.len(),
            forall|v: int| #[trigger] direct(ns, root@, v) ==> aff@[v],
            forall|v: int| 0 <= v < ns.len() && #[trigger] aff@[v] ==> affected(ns, root@, v),
        ensures
            aff@.len() == ns.len(),
            forall|v: int| #[trigger] direct(ns, root@, v) ==> aff@[v],
            forall|v: int| 0 <= v < ns.len() && #[trigger] aff@[v] ==> affected(ns, root@, v),
            forall|u: int, w: int| #[trigger] depends(ns, u, w) && aff@[w] ==> aff@[u],
        decreases count_of(aff@, false),
    {
        let changed = links.spread(&mut aff, Ghost(ns), Ghost(root@));
        if !changed {
            break;
        }
    }
    proof {
        assert forall|u: int| 0 <= u < ns.len() implies #[trigger] aff@[u] == affected(
            ns,
            root@,
            u,
        ) by {
            if affected(ns, root@, u) {
                let n = choose|n: nat| reached(ns, root@, u, n);
                affected_is_least(ns, root@, aff@, u, n);
            }
        }
    }
    aff
}

/// Does `k` say how the node `u` stands after `t` levels: its tier where it is
/// settled, else 0?
spec fn level(ns: Seq<NodeView>, root: Seq<char>, u: int, k: u32, t: nat) -> bool {
    if k == 0 {
        !settled(ns, root, u, t)
    } else {
        k <= t && is_tier(ns, root, u, k as nat)
    }
}

impl Links {
    /// Do all affected producers of `u` have a tier below `t`?
    fn producers_settled(
        &self,
        u: usize,
        aff: &Vec<bool>,
        tier: &Vec<u32>,
        t: u32,
        Ghost(ns): Ghost<Seq<NodeView>>,
    ) -> (r: bool)
        requires
            self.of(ns),
            u < ns.len(),
            is_vertex(ns, u as int),
            aff@.len() == ns.len(),
            tier@.len() == ns.len(),
        ensures
            r == forall|w: int| #[trigger]
                depends(ns, u as int, w) && aff@[w] ==> 0 < tier@[w] < t,
    {
        let list = &self.producers[u];
        let mut e: usize = 0;
        while e < list.len()
            invariant
                self.of(ns),
                u < ns.len(),
                is_vertex(ns, u as int),
                aff@.len() == ns.len(),
                tier@.len() == ns.len(),
                list@ == self.producers@[u as int]@,
                producers_of(ns, u as int, list@),
                e <= list@.len(),
                forall|j: int|
                    0 <= j < e ==> !(index_of(#[trigger] list@[j]) matches Some(w) && w != u
                        && aff@[w] && !(0 < tier@[w] < t)),
            decreases list@.len() - e,
        {
            proof {
                producer_is_vertex(ns, ns[u as int].edges[e as int].module);
                assert(index_of(list@[e as int]) == producer(ns, ns[u as int].edges[e as int].module));
            }
            if let Some(w) = list[e] {
                if w != u && aff[w] && !(0 < tier[w] && tier[w] < t) {
                    assert(depends(ns, u as int, w as int));
                    return false;
                }
            }
            e = e + 1;
        }
        assert forall|w: int| #[trigger] depends(ns, u as int, w) && aff@[w] implies 0 < tier@[w]
            < t by {
            let e = choose|e: int|
                0 <= e < ns[u as int].edges.len() && producer(
                    ns,
                    (#[trigger] ns[u as int].edges[e]).module,
                ) == Some(w);
            assert(index_of(list@[e]) == Some(w));
        }
        true
    }

    /// Gives the tier `t` to every affected repo whose affected producers are
    /// all below it; says whether there was any.
    fn settle(
        &self,
        aff: &Vec<bool>,
        tier: &mut Vec<u32>,
        t: u32,
        Ghost(ns): Ghost<Seq<NodeView>>,
        Ghost(root): Ghost<Seq<char>>,
    ) -> (changed: bool)
        requires
            self.of(ns),
            t > 0,
            aff@.len() == ns.len(),
            forall|u: int| 0 <= u < ns.len() ==> #[trigger] aff@[u] == affected(ns, root, u),
            old(tier)@.len() == ns.len(),
            forall|u: int|
                0 <= u < ns.len() ==> level(ns, root, u, #[trigger] old(tier)@[u], (t - 1) as nat),
        ensures
            final(tier)@.len() == ns.len(),
            forall|u: int|
                0 <= u < ns.len() ==> level(ns, root, u, #[trigger] final(tier)@[u], t as nat),
            changed ==> count_of(final(tier)@, 0) < count_of(old(tier)@, 0),
            !changed ==> final(tier)@ == old(tier)@,
    {
        let ghost before = tier@;
        let mut changed = false;
        let mut u: usize = 0;
        while u < tier.len()
            invariant
                self.of(ns),
                t > 0,
                aff@.len() == ns.len(),
                forall|v: int| 0 <= v < ns.len() ==> #[trigger] aff@[v] == affected(ns, root, v),
                before.len() == ns.len(),
                u <= tier@.len() == ns.len(),
                forall|v: int| 0 <= v < u ==> level(ns, root, v, #[trigger] tier@[v], t as nat),
                forall|v: int|
                    u <= v < ns.len() ==> level(ns, root, v, #[trigger] tier@[v], (t - 1) as nat),
                changed ==> count_of(tier@, 0) < count_of(before, 0),
                !changed ==> tier@ == before,
            decreases tier@.len() - u,
        {
            proof {
                // A producer is settled before this level exactly where its
                // tier so far lies in 1..t.
                assert forall|w: int| 0 <= w < ns.len() implies (0 < #[trigger] tier@[w] < t)
                    == settled(ns, root, w, (t - 1) as nat) by {
                    let k = tier@[w];
                    if k > 0 && k < t {
                        settled_mono(ns, root, w, k as nat, (t - 1) as nat);
                    }
                    if k == 0 && settled(ns, root, w, (t - 1) as nat) {
                        settled_mono(ns, root, w, (t - 1) as nat, t as nat);
                    }
                }
                if is_vertex(ns, u as int) {
                    assert forall|w: int| #[trigger] depends(ns, u as int, w) implies 0 <= w
                        < ns.len() by {
                        depends_on_vertex(ns, u as int, w);
                    }
                }
                if affected(ns, root, u as int) {
                    affected_is_vertex(ns, root, u as int);
                }
                if tier@[u as int] > 0 {
                    settled_mono(ns, root, u as int, tier@[u as int] as nat, t as nat);
                }
            }
            if aff[u] && tier[u] == 0 && self.producers_settled(u, aff, tier, t, Ghost(ns)) {
                proof {
                    assert(settled(ns, root, u as int, t as nat));
                    count_of_update(tier@, 0u32, u as int, t);
                }
                tier.set(u, t);
                changed = true;
            }
            u = u + 1;
        }
        changed
    }
}

/// The tier of every node; 0 where it has none.
fn assign_tiers(
    links: &Links,
    aff: &Vec<bool>,
    Ghost(ns): Ghost<Seq<NodeView>>,
    Ghost(root): Ghost<Seq<char>>,
) -> (tier: Vec<u32>)
    requires
        links.of(ns),
        ns.len() < u32::MAX,
        aff@.len() == ns.len(),
        forall|u: int| 0 <= u < ns.len() ==> #[trigger] aff@[u] == affected(ns, root, u),
    ensures
        tier@.len() == ns.len(),
        forall|u: int|
            0 <= u < ns.len() ==> if #[trigger] tier@[u] == 0 {
                !ordered(ns, root, u)
            } else {
                is_tier(ns, root, u, tier@[u] as nat)
            },
{
    let mut tier: Vec<u32> = Vec::new();
    let mut i: usize = 0;
    while i < aff.len()
        invariant
            i <= aff@.len(),
            tier@.len() == i,
            forall|u: int| 0 <= u < i ==> #[trigger] tier@[u] == 0,
        decreases aff@.len() - i,
    {
        tier.push(0);
        i = i + 1;
    }
    let mut t: u32 = 1;
    proof {
        count_of_bound(tier@, 0u32);
    }
    let ghost mut last: nat = 0;
    loop
        invariant_except_break
            forall|u: int|
                0 <= u < ns.len() ==> level(ns, root, u, #[trigger] tier@[u], (t - 1) as nat),
        invariant
            links.of(ns),
            ns.len() < u32::MAX,
            aff@.len() == ns.len(),
            forall|u: int| 0 <= u < ns.len() ==> #[trigger] aff@[u] == affected(ns, root, u),
            tier@.len() == ns.len(),
            t > 0,
            t - 1 + count_of(tier@, 0) <= ns.len(),
        ensures
            forall|u: int|
                0 <= u < ns.len() ==> level(ns, root, u, #[trigger] tier@[u], last)
                    && level(ns, root, u, tier@[u], last + 1),
        decreases count_of(tier@, 0),
    {
        let changed = links.settle(aff, &mut tier, t, Ghost(ns), Ghost(root));
        if !changed {
            proof {
                last = (t - 1) as nat;
            }
            break;
        }
        t = t + 1;
    }
    proof {
        assert forall|v: int| #[trigger] settled(ns, root, v, last + 1) implies settled(
            ns,
            root,
            v,
            last,
        ) by {
            affected_is_vertex(ns, root, v);
            assert(level(ns, root, v, tier@[v], last));
            if tier@[v] > 0 {
                settled_mono(ns, root, v, tier@[v] as nat, last);
            }
        }
        assert forall|u: int| 0 <= u < ns.len() && #[trigger] tier@[u] == 0 implies !ordered(
            ns,
            root,
            u,
        ) by {
            if ordered(ns, root, u) {
                let n = choose|n: nat| settled(ns, root, u, n);
                if n <= last {
                    settled_mono(ns, root, u, n, last);
                } else {
                    settled_stable(ns, root, u, last, n);
                }
            }
        }
    }
    tier
}

/// Inserts `x` into an ascending list, unless it is there.
fn insert_ascending(list: &mut Vec<String>, x: &String)
    requires
        ascending(old(list).deep_view()),
    ensures
        ascending(final(list).deep_view()),
        forall|m: Seq<char>| #[trigger]
            final(list).deep_view().contains(m) <==> old(list).deep_view().contains(m) || m == x@,
{
    let ghost before = list.deep_view();
    let mut i: usize = 0;
    while i < list.len() && text_before(list[i].as_str(), x.as_str())
        invariant
            i <= list@.len(),
            list.deep_view() == before,
            ascending(before),
            forall|j: int| 0 <= j < i ==> text::text_lt(#[trigger] before[j], x@),
        decreases list@.len() - i,
    {
        i = i + 1;
    }
    if i < list.len() && list[i] == *x {
        assert(before[i as int] == x@);
        return ;
    }
    proof {
        if i < before.len() {
            text::text_lt_total(before[i as int], x@);
        }
    }
    list.insert(i, x.clone());
    proof {
        let after = list.deep_view();
        assert(after =~= before.insert(i as int, x@));
        assert forall|a: int, b: int|
            #![trigger after[a], after[b]]
            0 <= a < b < after.len() implies text::text_lt(after[a], after[b]) by {
            if b < i {
                assert(text::text_lt(before[a], before[b]));
            } else if b == i {
                assert(text::text_lt(before[a], x@));
            } else if a < i {
                assert(text::text_lt(before[a], before[b - 1]));
            } else if a == i {
                if b - 1 > i {
                    assert(text::text_lt(before[i as int], before[b - 1]));
                    text::text_lt_transitive(x@, before[i as int], before[b - 1]);
                }
            } else {
                assert(text::text_lt(before[a - 1], before[b - 1]));
            }
        }
        assert forall|m: Seq<char>| #[trigger] after.contains(m) <==> before.contains(m) || m
            == x@ by {
            if after.contains(m) {
                let k = choose|k: int| 0 <= k < after.len() && after[k] == m;
                if k < i {
                    assert(before[k] == m);
                } else if k > i {
                    assert(before[k - 1] == m);
                }
            }
            if before.contains(m) {
                let k = choose|k: int| 0 <= k < before.len() && before[k] == m;
                if k < i {
                    assert(after[k] == m);
                } else {
                    assert(after[k + 1] == m);
                }
            }
            if m == x@ {
                assert(after[i as int] == m);
            }
        }
    }
}

/// The decision for a repo with the given edges.
fn decide_root(
    edges: &Vec<DepEdge>,
    root: &String,
    target: &Option<Version>,
    bump_satisfied: bool,
    Ghost(target_text): Ghost<Seq<char>>,
) -> (r: Option<BumpDecision>)
    requires
        target.deep_view() == version::version_of(text::trimmed(target_text)),
    ensures
        r.deep_view() == root_decision(edges.deep_view(), root@, target_text, bump_satisfied),
{
    let ghost es = edges.deep_view();
    let mut e: usize = 0;
    assert(es.skip(0) =~= es);
    while e < edges.len()
        invariant
            target.deep_view() == version::version_of(text::trimmed(target_text)),
            es == edges.deep_view(),
            e <= edges@.len() == es.len(),
            first_edge_on(es, root@) == first_edge_on(es.skip(e as int), root@),
        decreases edges@.len() - e,
    {
        assert(es.skip(e as int)[0] == edges@[e as int].deep_view());
        if edges[e].module == *root {
            return match target {
                Some(tv) => Some(decide(&edges[e].current, tv, bump_satisfied)),
                None => None,
            };
        }
        assert(es.skip(e as int).skip(1) =~= es.skip(e + 1));
        e = e + 1;
    }
    None
}

/// The plan's entry for the repo `u`.
fn plan_item(
    nodes: &Vec<RepoNode>,
    links: &Links,
    aff: &Vec<bool>,
    u: usize,
    tier: u32,
    root: &String,
    target: &Option<Version>,
    bump_satisfied: bool,
    Ghost(target_text): Ghost<Seq<char>>,
) -> (item: PlanItem)
    requires
        links.of(nodes.deep_view()),
        aff@.len() == nodes@.len(),
        forall|v: int|
            0 <= v < aff@.len() ==> #[trigger] aff@[v] == affected(nodes.deep_view(), root@, v),
        u < nodes@.len(),
        is_tier(nodes.deep_view(), root@, u as int, tier as nat),
        target.deep_view() == version::version_of(text::trimmed(target_text)),
    ensures
        is_item(
            nodes.deep_view(),
            root@,
            target_text,
            bump_satisfied,
            u as int,
            item.deep_view(),
        ),
{
    let ghost ns = nodes.deep_view();
    let ghost es = ns[u as int].edges;
    let edges = &nodes[u].edges;
    let list = &links.producers[u];
    let mut upstream: Vec<String> = Vec::new();
    let mut manifest_path = String::new();
    let mut e: usize = 0;
    assert(producers_of(ns, u as int, list@));
    while e < edges.len()
        invariant
            ns == nodes.deep_view(),
            es == ns[u as int].edges,
            es == edges.deep_view(),
            aff@.len() == ns.len(),
            forall|v: int| 0 <= v < aff@.len() ==> #[trigger] aff@[v] == affected(ns, root@, v),
            producers_of(ns, u as int, list@),
            e <= edges@.len() == es.len(),
            ascending(upstream.deep_view()),
            forall|m: Seq<char>| #[trigger]
                upstream.deep_view().contains(m) <==> takes_part(ns, root@, m) && exists|j: int|
                    0 <= j < e && (#[trigger] es[j]).module == m,
            manifest_path@ == manifest_among(ns, root@, u as int, e as nat),
        decreases edges@.len() - e,
    {
        let module = &edges[e].module;
        assert(es[e as int] == edges@[e as int].deep_view());
        assert(index_of(list@[e as int]) == producer(ns, es[e as int].module));
        proof {
            producer_is_vertex(ns, es[e as int].module);
        }
        let first_party = match list[e] {
            Some(w) => aff[w],
            None => false,
        };
        let ghost before = upstream.deep_view();
        if *module == *root || first_party {
            assert(takes_part(ns, root@, module@));
            insert_ascending(&mut upstream, module);
            if manifest_path.is_empty() {
                manifest_path = edges[e].manifest_path.clone();
            }
        }
        proof {
            assert forall|m: Seq<char>| #[trigger]
                upstream.deep_view().contains(m) <==> takes_part(ns, root@, m) && exists|j: int|
                    0 <= j < e + 1 && (#[trigger] es[j]).module == m by {
                if takes_part(ns, root@, m) && exists|j: int|
                    0 <= j < e + 1 && (#[trigger] es[j]).module == m {
                    let j = choose|j: int| 0 <= j < e + 1 && (#[trigger] es[j]).module == m;
                    if j < e {
                        assert(before.contains(m));
                    }
                }
                if upstream.deep_view().contains(m) && before.contains(m) {
                    let j = choose|j: int| 0 <= j < e && (#[trigger] es[j]).module == m;
                    assert(es[j].module == m);
                }
                if m == es[e as int].module {
                    assert(es[e as int].module == m);
                }
            }
        }
        e = e + 1;
    }
    let decision = decide_root(edges, root, target, bump_satisfied, Ghost(target_text));
    proof {
        affected_is_vertex(ns, root@, u as int);
    }
    PlanItem {
        repo: nodes[u].repo.clone(),
        published: copy_opt(&nodes[u].published),
        tier,
        upstream_modules: upstream,
        manifest_path,
        decision,
    }
}

/// Plan order on nodes: by tier, then by key.
spec fn node_before(ns: Seq<NodeView>, tier: Seq<u32>, a: int, b: int) -> bool {
    tier[a] < tier[b] || tier[a] == tier[b] && text::text_lt(ns[a].repo.key(), ns[b].repo.key())
}

/// Are the first `n` nodes that have a tier listed in `order`, in plan order?
spec fn in_plan_order(ns: Seq<NodeView>, tier: Seq<u32>, n: int, order: Seq<usize>) -> bool {
    &&& forall|i: int| 0 <= i < order.len() ==> #[trigger] order[i] < n && tier[order[i] as int] > 0
    &&& forall|u: int|
        0 <= u < n && #[trigger] tier[u] > 0 ==> exists|i: int|
            0 <= i < order.len() && #[trigger] order[i] == u
    &&& forall|i: int, j: int|
        #![trigger order[i], order[j]]
        0 <= i < j < order.len() ==> node_before(ns, tier, order[i] as int, order[j] as int)
}

/// Adds the node `n` to an order of the nodes before it.
proof fn order_insert(ns: Seq<NodeView>, tier: Seq<u32>, n: usize, order: Seq<usize>, p: int)
    requires
        n < ns.len() == tier.len(),
        in_plan_order(ns, tier, n as int, order),
        tier[n as int] > 0,
        0 <= p <= order.len(),
        forall|i: int| 0 <= i < p ==> node_before(ns, tier, #[trigger] order[i] as int, n as int),
        forall|i: int|
            p <= i < order.len() ==> node_before(ns, tier, n as int, #[trigger] order[i] as int),
    ensures
        in_plan_order(ns, tier, n + 1, order.insert(p, n)),
{
    let after = order.insert(p, n);
    assert forall|u: int| 0 <= u < n + 1 && #[trigger] tier[u] > 0 implies exists|i: int|
        0 <= i < after.len() && #[trigger] after[i] == u by {
        if u == n {
            assert(after[p] == u);
        } else {
            let i = choose|i: int| 0 <= i < order.len() && #[trigger] order[i] == u;
            if i < p {
                assert(after[i] == u);
            } else {
                assert(after[i + 1] == u);
            }
        }
    }
    assert forall|i: int, j: int|
        #![trigger after[i], after[j]]
        0 <= i < j < after.len() implies node_before(
        ns,
        tier,
        after[i] as int,
        after[j] as int,
    ) by {
        let a = if i < p { i } else { i - 1 };
        let b = if j < p { j } else { j - 1 };
        if i != p && j != p {
            assert(order[a] == after[i] && order[b] == after[j]);
        } else if i == p {
            assert(order[b] == after[j]);
        } else {
            assert(order[a] == after[i]);
        }
    }
}

/// The nodes that have a tier, in plan order.
fn plan_order(links: &Links, tier: &Vec<u32>, Ghost(ns): Ghost<Seq<NodeView>>) -> (order: Vec<usize>)
    requires
        links.of(ns),
        tier@.len() == ns.len(),
        forall|u: int| 0 <= u < ns.len() && #[trigger] tier@[u] > 0 ==> is_vertex(ns, u),
    ensures
        in_plan_order(ns, tier@, ns.len() as int, order@),
{
    let mut order: Vec<usize> = Vec::new();
    let mut u: usize = 0;
    while u < tier.len()
        invariant
            links.of(ns),
            u <= tier@.len() == ns.len(),
            forall|v: int| 0 <= v < ns.len() && #[trigger] tier@[v] > 0 ==> is_vertex(ns, v),
            in_plan_order(ns, tier@, u as int, order@),
        decreases tier@.len() - u,
    {
        if tier[u] > 0 {
            let mut p: usize = 0;
            while p < order.len() && (tier[order[p]] < tier[u] || tier[order[p]] == tier[u]
                && text_before(links.keys[order[p]].as_str(), links.keys[u].as_str()))
                invariant
                    links.of(ns),
                    u < tier@.len() == ns.len(),
                    in_plan_order(ns, tier@, u as int, order@),
                    p <= order@.len(),
                    forall|i: int|
                        0 <= i < p ==> node_before(ns, tier@, #[trigger] order@[i] as int, u as int),
                decreases order@.len() - p,
            {
                p = p + 1;
            }
            proof {
                assert forall|i: int| p <= i < order@.len() implies node_before(
                    ns,
                    tier@,
                    u as int,
                    #[trigger] order@[i] as int,
                ) by {
                    let a = order@[p as int] as int;
                    let b = order@[i] as int;
                    text::text_lt_total(ns[a].repo.key(), ns[u as int].repo.key());
                    assert(node_before(ns, tier@, u as int, a));
                    if p < i {
                        assert(node_before(ns, tier@, a, b));
                        if tier@[u as int] == tier@[b] {
                            text::text_lt_transitive(
                                ns[u as int].repo.key(),
                                ns[a].repo.key(),
                                ns[b].repo.key(),
                            );
                        }
                    }
                }
                order_insert(ns, tier@, u, order@, p as int);
            }
            order.insert(p, u);
        }
        u = u + 1;
    }
    order
}

/// The keys of the affected nodes that have no tier.
fn stuck_keys(
    links: &Links,
    aff: &Vec<bool>,
    tier: &Vec<u32>,
    Ghost(ns): Ghost<Seq<NodeView>>,
    Ghost(root): Ghost<Seq<char>>,
) -> (r: Vec<String>)
    requires
        links.of(ns),
        aff@.len() == ns.len(),
        forall|u: int| 0 <= u < ns.len() ==> #[trigger] aff@[u] == affected(ns, root, u),
        tier@.len() == ns.len(),
        forall|u: int|
            0 <= u < ns.len() ==> (#[trigger] tier@[u] == 0) == !ordered(ns, root, u),
    ensures
        r.deep_view().no_duplicates(),
        forall|k: Seq<char>| #[trigger]
            r.deep_view().contains(k) <==> exists|u: int| #[trigger]
                stuck(ns, root, u) && ns[u].repo.key() == k,
{
    let mut out: Vec<String> = Vec::new();
    let mut u: usize = 0;
    while u < aff.len()
        invariant
            links.of(ns),
            u <= aff@.len() == ns.len(),
            forall|u: int| 0 <= u < ns.len() ==> #[trigger] aff@[u] == affected(ns, root, u),
            tier@.len() == ns.len(),
            forall|u: int|
                0 <= u < ns.len() ==> (#[trigger] tier@[u] == 0) == !ordered(ns, root, u),
            out.deep_view().no_duplicates(),
            forall|k: Seq<char>| #[trigger]
                out.deep_view().contains(k) <==> exists|v: int|
                    v < u && #[trigger] stuck(ns, root, v) && ns[v].repo.key() == k,
        decreases aff@.len() - u,
    {
        let ghost before = out.deep_view();
        if aff[u] && tier[u] == 0 {
            out.push(links.keys[u].clone());
            proof {
                let key = ns[u as int].repo.key();
                assert(out.deep_view() =~= before.push(key));
                assert(stuck(ns, root, u as int));
                affected_is_vertex(ns, root, u as int);
                if before.contains(key) {
                    let v = choose|v: int|
                        v < u && #[trigger] stuck(ns, root, v) && ns[v].repo.key() == key;
                    affected_is_vertex(ns, root, v);
                    vertex_keys_differ(ns, u as int, v);
                }
                assert forall|k: Seq<char>| #[trigger]
                    out.deep_view().contains(k) <==> exists|v: int|
                        v < u + 1 && #[trigger] stuck(ns, root, v) && ns[v].repo.key() == k by {
                    if out.deep_view().contains(k) {
                        let i = choose|i: int| 0 <= i < before.len() + 1 && out.deep_view()[i] == k;
                        if i < before.len() {
                            assert(before[i] == k);
                            assert(before.contains(k));
                        }
                    }
                    if before.contains(k) {
                        let i = choose|i: int| 0 <= i < before.len() && before[i] == k;
                        assert(out.deep_view()[i] == k);
                    }
                    if k == key {
                        assert(out.deep_view()[before.len() as int] == k);
                    }
                }
            }
        } else {
            assert(!stuck(ns, root, u as int));
        }
        u = u + 1;
    }
    proof {
        assert forall|k: Seq<char>| #[trigger]
            out.deep_view().contains(k) <==> exists|v: int| #[trigger]
                stuck(ns, root, v) && ns[v].repo.key() == k by {
            if exists|v: int| #[trigger] stuck(ns, root, v) && ns[v].repo.key() == k {
                let v = choose|v: int| #[trigger] stuck(ns, root, v) && ns[v].repo.key() == k;
                affected_is_vertex(ns, root, v);
                assert(v < u && stuck(ns, root, v) && ns[v].repo.key() == k);
            }
        }
    }
    out
}

/// Compute the tiered cascade for bumping `root_module` to `target_version`.
/// `bump_satisfied` forces bumps even where a caret/range already admits the
/// target (to advance pinned lockfile floors).
pub fn propose(
    nodes: Vec<RepoNode>,
    root_module: &str,
    target_version: &str,
    bump_satisfied: bool,
) -> (plan: WavePlan)
    requires
        nodes@.len() < u32::MAX,
    ensures
        is_plan(
            nodes.deep_view(),
            root_module@,
            target_version@,
            bump_satisfied,
            plan.deep_view(),
        ),
{
    let ghost ns = nodes.deep_view();
    let root = root_module.to_owned();
    let links = link(&nodes);
    let aff = mark_affected(&nodes, &links, &root);
    let tier = assign_tiers(&links, &aff, Ghost(ns), Ghost(root@));
    proof {
        assert forall|u: int| 0 <= u < ns.len() && #[trigger] tier@[u] > 0 implies is_vertex(
            ns,
            u,
        ) by {
            affected_is_vertex(ns, root@, u);
        }
        assert forall|u: int| 0 <= u < ns.len() implies (#[trigger] tier@[u] == 0) == !ordered(
            ns,
            root@,
            u,
        ) by {
            if tier@[u] > 0 {
                assert(settled(ns, root@, u, tier@[u] as nat));
            }
        }
    }
    let order = plan_order(&links, &tier, Ghost(ns));
    let target_text = trim(target_version);
    let target = Version::parse(target_text.as_str());
    let mut items: Vec<PlanItem> = Vec::new();
    let mut i: usize = 0;
    while i < order.len()
        invariant
            ns == nodes.deep_view(),
            links.of(ns),
            aff@.len() == ns.len(),
            forall|u: int| 0 <= u < ns.len() ==> #[trigger] aff@[u] == affected(ns, root@, u),
            tier@.len() == ns.len(),
            forall|u: int|
                0 <= u < ns.len() && #[trigger] tier@[u] > 0 ==> is_tier(
                    ns,
                    root@,
                    u,
                    tier@[u] as nat,
                ),
            target.deep_view() == version::version_of(text::trimmed(target_version@)),
            in_plan_order(ns, tier@, ns.len() as int, order@),
            i <= order@.len(),
            items@.len() == i,
            forall|j: int|
                0 <= j < i ==> #[trigger] is_item(
                    ns,
                    root@,
                    target_version@,
                    bump_satisfied,
                    order@[j] as int,
                    items@[j].deep_view(),
                ) && items@[j].tier == tier@[order@[j] as int],
        decreases order@.len() - i,
    {
        let u = order[i];
        let ghost before = items@;
        items.push(
            plan_item(
                &nodes,
                &links,
                &aff,
                u,
                tier[u],
                &root,
                &target,
                bump_satisfied,
                Ghost(target_version@),
            ),
        );
        proof {
            tier_is_unique(
                ns,
                root@,
                u as int,
                tier@[u as int] as nat,
                items@[i as int].deep_view().tier as nat,
            );
            assert(items@[i as int].tier == tier@[u as int]);
            assert forall|j: int| 0 <= j <= i implies #[trigger] is_item(
                ns,
                root@,
                target_version@,
                bump_satisfied,
                order@[j] as int,
                items@[j].deep_view(),
            ) && items@[j].tier == tier@[order@[j] as int] by {
                if j < i {
                    assert(items@[j] == before[j]);
                    assert(is_item(
                        ns,
                        root@,
                        target_version@,
                        bump_satisfied,
                        order@[j] as int,
                        before[j].deep_view(),
                    ));
                }
            }
        }
        i = i + 1;
    }
    let cycle = stuck_keys(&links, &aff, &tier, Ghost(ns), Ghost(root@));
    let root_repo = match find_producer(&nodes, &links.keys, &root) {
        Some(w) => Some(nodes[w].repo.clone()),
        None => None,
    };
    let plan = WavePlan {
        root_module: root,
        root_repo,
        target_version: target_version.to_owned(),
        items,
        cycle,
    };
    proof {
        let p = plan.deep_view();
        assert forall|i: int| 0 <= i < p.items.len() implies #[trigger] p.items[i]
            == items@[i].deep_view() by {}
        assert forall|i: int| 0 <= i < p.items.len() implies is_some_item(
            ns,
            root_module@,
            target_version@,
            bump_satisfied,
            #[trigger] p.items[i],
        ) by {
            assert(is_item(
                ns,
                root@,
                target_version@,
                bump_satisfied,
                order@[i] as int,
                p.items[i],
            ));
        }
        assert forall|u: int| #[trigger] ordered(ns, root_module@, u) implies exists|i: int|
            0 <= i < p.items.len() && is_item(
                ns,
                root_module@,
                target_version@,
                bump_satisfied,
                u,
                #[trigger] p.items[i],
            ) by {
            affected_is_vertex(ns, root@, u);
            assert(tier@[u] > 0);
            let i = choose|i: int| 0 <= i < order@.len() && #[trigger] order@[i] == u;
            assert(is_item(
                ns,
                root@,
                target_version@,
                bump_satisfied,
                order@[i] as int,
                p.items[i],
            ));
        }
        assert forall|i: int, j: int|
            #![trigger p.items[i], p.items[j]]
            0 <= i < j < p.items.len() implies item_before(p.items[i], p.items[j]) by {
            assert(is_item(
                ns,
                root@,
                target_version@,
                bump_satisfied,
                order@[i] as int,
                items@[i].deep_view(),
            ));
            assert(is_item(
                ns,
                root@,
                target_version@,
                bump_satisfied,
                order@[j] as int,
                items@[j].deep_view(),
            ));
            assert(node_before(ns, tier@, order@[i] as int, order@[j] as int));
        }
    }
    plan
}

} // verus!
