//! External-dependency *discovery* — the complement to
//! [`propose`](crate::graph::propose).
//!
//! `propose` *propagates* a bump you already know about (an internal upstream
//! published a new version) through the cross-repo DAG. Discovery does the other
//! half: it scans the dependency edges already parsed for each repo, asks a
//! registry [`Datasource`] what the latest published version of each *external*
//! (3rd-party) dependency is, and emits the repos whose pinned constraint would
//! need a bump to reach it.
//!
//! The internal/external split is the crux: a dependency is **internal** (owned
//! by the cascade, left alone here) if some enumerated repo publishes it, or its
//! name matches a configured internal prefix (`@aion/`, `@savvi-studio/`, …).
//! Everything else is **external** and a discovery candidate. Keeping the two
//! disjoint is what lets discovery and the cascade coexist without fighting over
//! the same manifests.
//!
//! The engine does no I/O of its own: [`lookups`] says what to ask a registry,
//! and [`candidates_from`] takes the answers. [`find_candidates`] joins the two
//! over a [`Datasource`].
use vstd::prelude::*;
use vstd::string::*;

use crate::edge::{
    self, decide, BumpDecision, ConstraintView, DecisionView, DepEdge, DepEdgeView, EdgeKind,
    VersionConstraint,
};
use crate::forge::{RepoRef, RepoRefView};
use crate::graph::{repo_key, NodeView, RepoNode};
use crate::select;
use crate::sort::{self, Ranked};
use crate::text::{self, copy_opt, copy_texts, starts_with, text_before, trim};
use crate::version::{self, Version, VersionView};

verus! {

/// The latest published version of an external dependency, from a registry.
#[derive(Debug, PartialEq, Eq)]
pub struct VersionInfo {
    /// The latest version string (e.g. npm `dist-tags.latest`).
    pub version: String,
    /// For digest-pinned ecosystems (Docker / CI images): the current digest.
    pub digest: Option<String>,
    /// Release timestamp, when the datasource reports one (RFC 3339).
    pub released_at: Option<String>,
}

/// What a [`VersionInfo`] says.
pub struct VersionInfoView {
    pub version: Seq<char>,
    pub digest: Option<Seq<char>>,
    pub released_at: Option<Seq<char>>,
}

impl DeepView for VersionInfo {
    type V = VersionInfoView;

    open spec fn deep_view(&self) -> VersionInfoView {
        VersionInfoView {
            version: self.version@,
            digest: self.digest.deep_view(),
            released_at: self.released_at.deep_view(),
        }
    }
}

impl Clone for VersionInfo {
    fn clone(&self) -> (r: VersionInfo)
        ensures
            r.deep_view() == self.deep_view(),
    {
        VersionInfo {
            version: self.version.clone(),
            digest: copy_opt(&self.digest),
            released_at: copy_opt(&self.released_at),
        }
    }
}

/// A source of latest-version information for one dependency ecosystem
/// (npm registry, crates.io, a container registry, …). A pure seam: the engine
/// calls it; concrete impls are supplied by the caller.
pub trait Datasource: Send + Sync {
    /// The edge kind this datasource resolves.
    fn kind(&self) -> (r: EdgeKind);

    /// The latest version of `package`, or `None` if it is unknown / not found.
    fn latest(&self, package: &str) -> (r: Result<Option<VersionInfo>, String>);
}

/// What separates an internal dependency (owned by the cascade) from an external
/// one (a discovery candidate).
#[derive(Debug, PartialEq, Eq)]
pub struct DiscoverConfig {
    /// Module-name prefixes that mark a dependency as internal and therefore
    /// skipped — e.g. `@aion/`, `@savvi-studio/`. A dependency published by one
    /// of the enumerated repos is treated as internal automatically, without a
    /// prefix; prefixes cover internal scopes whose producer is in *another*
    /// group than the one being scanned.
    pub internal_prefixes: Vec<String>,
    /// Force a bump even where a caret/range already admits the latest version
    /// (advance the manifest floor rather than rely on lockfile maintenance).
    pub force: bool,
    /// Opt-in: also poll+report the modules matched by [`Self::internal_prefixes`],
    /// i.e. bring a repo's *first-party* pins up to the latest published version.
    ///
    /// This deliberately relaxes only the **prefix** rule. A module published by
    /// one of the enumerated repos stays internal regardless — that one is owned
    /// by the cascade, and letting discovery bump it too is exactly the
    /// double-ownership this partition exists to prevent. A prefix-matched module
    /// with no producer in the scan has no such owner, so polling it is safe.
    ///
    /// Default `false` keeps discovery and the cascade disjoint, as before.
    pub include_internal: bool,
    /// Restrict the report to modules matching [`Self::internal_prefixes`] —
    /// "bring THIS repo's first-party pins up to latest" WITHOUT dragging every
    /// third-party dependency into the same change. Implies
    /// [`Self::include_internal`].
    ///
    /// Without this, opting internal in *adds* to the external set rather than
    /// selecting it, so a first-party bump would also carry unrelated registry
    /// churn — a different change, with a different blast radius.
    pub only_internal: bool,
}

/// What a [`DiscoverConfig`] says.
pub struct DiscoverConfigView {
    pub internal_prefixes: Seq<Seq<char>>,
    pub force: bool,
    pub include_internal: bool,
    pub only_internal: bool,
}

impl DeepView for DiscoverConfig {
    type V = DiscoverConfigView;

    open spec fn deep_view(&self) -> DiscoverConfigView {
        DiscoverConfigView {
            internal_prefixes: self.internal_prefixes.deep_view(),
            force: self.force,
            include_internal: self.include_internal,
            only_internal: self.only_internal,
        }
    }
}

impl Clone for DiscoverConfig {
    fn clone(&self) -> (r: DiscoverConfig)
        ensures
            r.deep_view() == self.deep_view(),
    {
        DiscoverConfig {
            internal_prefixes: copy_texts(&self.internal_prefixes),
            force: self.force,
            include_internal: self.include_internal,
            only_internal: self.only_internal,
        }
    }
}

impl DiscoverConfigView {
    /// The empty value.
    pub open spec fn empty() -> DiscoverConfigView {
        DiscoverConfigView {
            internal_prefixes: seq![],
            force: false,
            include_internal: false,
            only_internal: false,
        }
    }
}

impl Default for DiscoverConfig {
    fn default() -> (r: DiscoverConfig)
        ensures
            r.deep_view() == DiscoverConfigView::empty(),
    {
        let r = DiscoverConfig {
            internal_prefixes: Vec::new(),
            force: false,
            include_internal: false,
            only_internal: false,
        };
        assert(r.deep_view().internal_prefixes =~= seq![]);
        r
    }
}

impl DiscoverConfigView {
    /// Are prefix-matched modules poll-eligible? Either mode opts them in.
    pub open spec fn internal_opted_in(self) -> bool {
        self.include_internal || self.only_internal
    }

    /// Does `module` match a configured internal prefix?
    pub open spec fn matches_internal_prefix(self, module: Seq<char>) -> bool {
        exists|i: int|
            0 <= i < self.internal_prefixes.len()
                && (#[trigger] self.internal_prefixes[i]).is_prefix_of(module)
    }

    /// Is `module` filtered out by `only_internal`?
    pub open spec fn excluded_by_only_internal(self, module: Seq<char>) -> bool {
        self.only_internal && !self.matches_internal_prefix(module)
    }
}

impl DiscoverConfig {
    /// Are prefix-matched modules poll-eligible? Either mode opts them in.
    pub fn internal_opted_in(&self) -> (r: bool)
        ensures
            r == self.deep_view().internal_opted_in(),
    {
        self.include_internal || self.only_internal
    }

    /// Does `module` match a configured internal prefix?
    pub fn matches_internal_prefix(&self, module: &str) -> (r: bool)
        ensures
            r == self.deep_view().matches_internal_prefix(module@),
    {
        let ghost ps = self.deep_view().internal_prefixes;
        let mut i: usize = 0;
        while i < self.internal_prefixes.len()
            invariant
                ps == self.internal_prefixes.deep_view(),
                i <= self.internal_prefixes@.len(),
                forall|j: int| 0 <= j < i ==> !(#[trigger] ps[j]).is_prefix_of(module@),
                ps == self.deep_view().internal_prefixes,
            decreases self.internal_prefixes@.len() - i,
        {
            if starts_with(module, self.internal_prefixes[i].as_str()) {
                assert(ps[i as int].is_prefix_of(module@));
                return true;
            }
            i = i + 1;
        }
        false
    }

    /// Is `module` filtered out by [`Self::only_internal`]?
    pub fn excluded_by_only_internal(&self, module: &str) -> (r: bool)
        ensures
            r == self.deep_view().excluded_by_only_internal(module@),
    {
        self.only_internal && !self.matches_internal_prefix(module)
    }
}

/// One external-dependency update opportunity for one repo.
#[derive(Debug)]
pub struct Candidate {
    pub repo: RepoRef,
    /// The external dependency's name.
    pub module: String,
    /// The manifest the edge lives in (the file a bump would rewrite).
    pub manifest_path: String,
    pub kind: EdgeKind,
    /// The repo's current constraint on the dependency.
    pub current: VersionConstraint,
    /// The latest version the datasource reported.
    pub latest: String,
    /// Why this is a candidate (always [`BumpDecision::NeedsBump`] today; kept
    /// explicit so a future report can surface conflicts too).
    pub decision: BumpDecision,
}

/// What a [`Candidate`] says.
pub struct CandidateView {
    pub repo: RepoRefView,
    pub module: Seq<char>,
    pub manifest_path: Seq<char>,
    pub kind: EdgeKind,
    pub current: ConstraintView,
    pub latest: Seq<char>,
    pub decision: DecisionView,
}

impl DeepView for Candidate {
    type V = CandidateView;

    open spec fn deep_view(&self) -> CandidateView {
        CandidateView {
            repo: self.repo.deep_view(),
            module: self.module@,
            manifest_path: self.manifest_path@,
            kind: self.kind,
            current: self.current.deep_view(),
            latest: self.latest@,
            decision: self.decision.deep_view(),
        }
    }
}

impl Clone for Candidate {
    fn clone(&self) -> (r: Candidate)
        ensures
            r.deep_view() == self.deep_view(),
    {
        Candidate {
            repo: self.repo.clone(),
            module: self.module.clone(),
            manifest_path: self.manifest_path.clone(),
            kind: self.kind,
            current: self.current.clone(),
            latest: self.latest.clone(),
            decision: self.decision.clone(),
        }
    }
}

/// Does the list hold the text?
fn holds(list: &Vec<String>, x: &str) -> (r: bool)
    ensures
        r == list.deep_view().contains(x@),
{
    let ghost l = list.deep_view();
    let key = x.to_owned();
    let mut i: usize = 0;
    while i < list.len()
        invariant
            l == list.deep_view(),
            key@ == x@,
            i <= list@.len() == l.len(),
            forall|j: int| 0 <= j < i ==> #[trigger] l[j] != x@,
        decreases list@.len() - i,
    {
        if list[i] == key {
            assert(l[i as int] == x@);
            return true;
        }
        i = i + 1;
    }
    false
}

/// Is `module` owned by the cascade?
pub open spec fn internal(
    module: Seq<char>,
    published: Seq<Seq<char>>,
    cfg: DiscoverConfigView,
) -> bool {
    published.contains(module) || (!cfg.internal_opted_in() && cfg.matches_internal_prefix(module))
}

/// Is `module` internal — owned by the cascade, not a discovery candidate?
///
/// Published-by-a-scanned-repo always wins: that module has a producer in this
/// very scan, so the cascade owns it. [`DiscoverConfig::include_internal`] only
/// relaxes the weaker prefix rule (see that field).
pub fn is_internal(module: &str, published: &Vec<String>, cfg: &DiscoverConfig) -> (r: bool)
    ensures
        r == internal(module@, published.deep_view(), cfg.deep_view()),
{
    holds(published, module) || (!cfg.internal_opted_in() && cfg.matches_internal_prefix(module))
}

// ─── what to look up ────────────────────────────────────────────────────

/// Every module published by one of the nodes, in order.
pub open spec fn published_modules(ns: Seq<NodeView>) -> Seq<Seq<char>>
    decreases ns.len(),
{
    if ns.len() == 0 {
        seq![]
    } else {
        match ns.last().published {
            Some(m) => published_modules(ns.drop_last()).push(m),
            None => published_modules(ns.drop_last()),
        }
    }
}

/// Every module published by one of the nodes, in order.
fn all_published(nodes: &Vec<RepoNode>) -> (r: Vec<String>)
    ensures
        r.deep_view() == published_modules(nodes.deep_view()),
{
    let ghost ns = nodes.deep_view();
    let mut out: Vec<String> = Vec::new();
    let mut i: usize = 0;
    assert(out.deep_view() =~= published_modules(ns.take(0)));
    while i < nodes.len()
        invariant
            ns == nodes.deep_view(),
            i <= nodes@.len() == ns.len(),
            out.deep_view() == published_modules(ns.take(i as int)),
        decreases nodes@.len() - i,
    {
        let ghost before = out.deep_view();
        assert(ns.take(i + 1).drop_last() =~= ns.take(i as int));
        assert(ns.take(i + 1).last() == nodes@[i as int].deep_view());
        if let Some(m) = &nodes[i].published {
            out.push(m.clone());
            assert(out.deep_view() =~= before.push(m@));
        }
        i = i + 1;
    }
    assert(ns.take(ns.len() as int) =~= ns);
    out
}

/// Does the edge warrant a registry lookup: is it external, semver-bearing, and
/// backed by a datasource?
pub open spec fn wanted(
    ns: Seq<NodeView>,
    kinds: Seq<EdgeKind>,
    cfg: DiscoverConfigView,
    e: DepEdgeView,
) -> bool {
    &&& e.current !is Other
    &&& !internal(e.module, published_modules(ns), cfg)
    &&& !cfg.excluded_by_only_internal(e.module)
    &&& kinds.contains(e.kind)
}

/// Does an edge of one of the nodes warrant the lookup of `module` in `kind`?
pub open spec fn wanted_lookup(
    ns: Seq<NodeView>,
    kinds: Seq<EdgeKind>,
    cfg: DiscoverConfigView,
    kind: EdgeKind,
    module: Seq<char>,
) -> bool {
    exists|i: int, j: int|
        #![trigger ns[i].edges[j]]
        0 <= i < ns.len() && 0 <= j < ns[i].edges.len() && wanted(ns, kinds, cfg, ns[i].edges[j])
            && ns[i].edges[j].kind == kind && ns[i].edges[j].module == module
}

/// A module to look up, and where.
pub open spec fn pair_of(p: (EdgeKind, String)) -> (EdgeKind, Seq<char>) {
    (p.0, p.1@)
}

/// The modules to look up, and where.
pub open spec fn pairs_of(l: Seq<(EdgeKind, String)>) -> Seq<(EdgeKind, Seq<char>)> {
    l.map_values(|p: (EdgeKind, String)| pair_of(p))
}

/// Adds a pair to the list, unless it is there.
fn add_pair(list: &mut Vec<(EdgeKind, String)>, kind: EdgeKind, module: &String)
    requires
        pairs_of(old(list)@).no_duplicates(),
    ensures
        pairs_of(final(list)@).no_duplicates(),
        forall|p: (EdgeKind, Seq<char>)| #[trigger]
            pairs_of(final(list)@).contains(p) <==> pairs_of(old(list)@).contains(p) || p == (
                kind,
                module@,
            ),
{
    let ghost before = pairs_of(list@);
    let mut i: usize = 0;
    while i < list.len()
        invariant
            *list == *old(list),
            before == pairs_of(list@),
            before.no_duplicates(),
            i <= list@.len(),
            forall|j: int| 0 <= j < i ==> #[trigger] before[j] != (kind, module@),
        decreases list@.len() - i,
    {
        if list[i].0 == kind && list[i].1 == *module {
            assert(before[i as int] == (kind, module@));
            return ;
        }
        i = i + 1;
    }
    list.push((kind, module.clone()));
    proof {
        let after = pairs_of(list@);
        assert(after =~= before.push((kind, module@)));
        assert(after[before.len() as int] == (kind, module@));
        assert forall|p: (EdgeKind, Seq<char>)| #[trigger] after.contains(p) <==> before.contains(p)
            || p == (kind, module@) by {
            if before.contains(p) {
                let k = choose|k: int| 0 <= k < before.len() && before[k] == p;
                assert(after[k] == p);
            }
            if after.contains(p) {
                let k = choose|k: int| 0 <= k < after.len() && after[k] == p;
                if k < before.len() {
                    assert(before[k] == p);
                }
            }
        }
    }
}

/// Does the list hold the kind?
fn has_kind(kinds: &Vec<EdgeKind>, kind: EdgeKind) -> (r: bool)
    ensures
        r == kinds@.contains(kind),
{
    let mut i: usize = 0;
    while i < kinds.len()
        invariant
            i <= kinds@.len(),
            forall|j: int| 0 <= j < i ==> #[trigger] kinds@[j] != kind,
        decreases kinds@.len() - i,
    {
        if kinds[i] == kind {
            return true;
        }
        i = i + 1;
    }
    false
}

/// Does the edge warrant a registry lookup?
fn is_wanted(
    published: &Vec<String>,
    kinds: &Vec<EdgeKind>,
    cfg: &DiscoverConfig,
    e: &DepEdge,
    Ghost(ns): Ghost<Seq<NodeView>>,
) -> (r: bool)
    requires
        published.deep_view() == published_modules(ns),
    ensures
        r == wanted(ns, kinds@, cfg.deep_view(), e.deep_view()),
{
    match &e.current {
        VersionConstraint::Other(_) => {
            return false;
        },
        _ => {},
    }
    if is_internal(e.module.as_str(), published, cfg) {
        return false;
    }
    if cfg.excluded_by_only_internal(e.module.as_str()) {
        return false;
    }
    has_kind(kinds, e.kind)
}

/// The distinct (kind, module) pairs that warrant a registry lookup: external,
/// semver-bearing, and backed by a datasource of one of the `kinds`. Each is
/// listed once.
pub fn lookups(nodes: &Vec<RepoNode>, kinds: &Vec<EdgeKind>, cfg: &DiscoverConfig) -> (r: Vec<
    (EdgeKind, String),
>)
    ensures
        pairs_of(r@).no_duplicates(),
        forall|kind: EdgeKind, module: Seq<char>| #[trigger]
            pairs_of(r@).contains((kind, module)) <==> wanted_lookup(
                nodes.deep_view(),
                kinds@,
                cfg.deep_view(),
                kind,
                module,
            ),
{
    let ghost ns = nodes.deep_view();
    let ghost c = cfg.deep_view();
    let published = all_published(nodes);
    let mut out: Vec<(EdgeKind, String)> = Vec::new();
    let mut i: usize = 0;
    while i < nodes.len()
        invariant
            ns == nodes.deep_view(),
            c == cfg.deep_view(),
            published.deep_view() == published_modules(ns),
            i <= nodes@.len() == ns.len(),
            pairs_of(out@).no_duplicates(),
            forall|p: (EdgeKind, Seq<char>)| #[trigger]
                pairs_of(out@).contains(p) <==> wanted_among(ns, kinds@, c, i as int, 0, p),
        decreases nodes@.len() - i,
    {
        let edges = &nodes[i].edges;
        assert(ns[i as int].edges == edges.deep_view());
        let mut j: usize = 0;
        while j < edges.len()
            invariant
                ns == nodes.deep_view(),
                c == cfg.deep_view(),
                published.deep_view() == published_modules(ns),
                i < nodes@.len() == ns.len(),
                ns[i as int].edges == edges.deep_view(),
                j <= edges@.len(),
                pairs_of(out@).no_duplicates(),
                forall|p: (EdgeKind, Seq<char>)| #[trigger]
                    pairs_of(out@).contains(p) <==> wanted_among(
                        ns,
                        kinds@,
                        c,
                        i as int,
                        j as int,
                        p,
                    ),
            decreases edges@.len() - j,
        {
            let ghost before = pairs_of(out@);
            let e = &edges[j];
            assert(ns[i as int].edges[j as int] == e.deep_view());
            if is_wanted(&published, kinds, cfg, e, Ghost(ns)) {
                add_pair(&mut out, e.kind, &e.module);
            }
            proof {
                assert forall|p: (EdgeKind, Seq<char>)| #[trigger]
                    pairs_of(out@).contains(p) <==> wanted_among(
                        ns,
                        kinds@,
                        c,
                        i as int,
                        j + 1,
                        p,
                    ) by {
                    wanted_among_next(ns, kinds@, c, i as int, j as int, p);
                }
            }
            j = j + 1;
        }
        proof {
            assert forall|p: (EdgeKind, Seq<char>)| #[trigger]
                pairs_of(out@).contains(p) <==> wanted_among(ns, kinds@, c, i + 1, 0, p) by {
                wanted_among_row(ns, kinds@, c, i as int, p);
            }
        }
        i = i + 1;
    }
    out
}

/// Does an edge before the edge `j` of the node `i` warrant the lookup `p`?
spec fn wanted_among(
    ns: Seq<NodeView>,
    kinds: Seq<EdgeKind>,
    cfg: DiscoverConfigView,
    i: int,
    j: int,
    p: (EdgeKind, Seq<char>),
) -> bool {
    exists|a: int, b: int|
        #![trigger ns[a].edges[b]]
        0 <= a < ns.len() && 0 <= b < ns[a].edges.len() && (a < i || a == i && b < j) && wanted(
            ns,
            kinds,
            cfg,
            ns[a].edges[b],
        ) && ns[a].edges[b].kind == p.0 && ns[a].edges[b].module == p.1
}

proof fn wanted_among_next(
    ns: Seq<NodeView>,
    kinds: Seq<EdgeKind>,
    cfg: DiscoverConfigView,
    i: int,
    j: int,
    p: (EdgeKind, Seq<char>),
)
    requires
        0 <= i < ns.len(),
        0 <= j < ns[i].edges.len(),
    ensures
        wanted_among(ns, kinds, cfg, i, j + 1, p) <==> wanted_among(ns, kinds, cfg, i, j, p) || (
        wanted(ns, kinds, cfg, ns[i].edges[j]) && p == (ns[i].edges[j].kind, ns[i].edges[j].module)),
{
    if wanted_among(ns, kinds, cfg, i, j + 1, p) {
        let (a, b) = choose|a: int, b: int|
            #![trigger ns[a].edges[b]]
            0 <= a < ns.len() && 0 <= b < ns[a].edges.len() && (a < i || a == i && b < j + 1)
                && wanted(ns, kinds, cfg, ns[a].edges[b]) && ns[a].edges[b].kind == p.0
                && ns[a].edges[b].module == p.1;
        assert(ns[a].edges[b].kind == p.0);
    }
}

proof fn wanted_among_row(
    ns: Seq<NodeView>,
    kinds: Seq<EdgeKind>,
    cfg: DiscoverConfigView,
    i: int,
    p: (EdgeKind, Seq<char>),
)
    requires
        0 <= i < ns.len(),
    ensures
        wanted_among(ns, kinds, cfg, i + 1, 0, p) <==> wanted_among(
            ns,
            kinds,
            cfg,
            i,
            ns[i].edges.len() as int,
            p,
        ),
{
}

// ─── the answers ────────────────────────────────────────────────────────

/// A datasource's latest version as it is used: non-semver and prerelease
/// results are dropped (ignore-unstable by default — don't jump a stable pin onto
/// a prerelease).
pub open spec fn usable_version(info: Option<VersionInfoView>) -> Option<VersionView> {
    match info {
        Some(i) => match version::version_of(text::trimmed(i.version)) {
            Some(v) => if v.pre.len() == 0 {
                Some(v)
            } else {
                None
            },
            None => None,
        },
        None => None,
    }
}

/// Parses a datasource's latest version, dropping non-semver and prerelease
/// results.
pub fn resolve_latest(info: &Option<VersionInfo>) -> (r: Option<Version>)
    ensures
        r.deep_view() == usable_version(info.deep_view()),
{
    match info {
        Some(i) => {
            let t = trim(i.version.as_str());
            match Version::parse(t.as_str()) {
                Some(v) => {
                    if v.is_stable() {
                        Some(v)
                    } else {
                        None
                    }
                },
                None => None,
            }
        },
        None => None,
    }
}

/// What a registry knows of a module: its latest stable version, if any.
#[derive(Debug)]
pub struct Answer {
    pub kind: EdgeKind,
    pub module: String,
    pub latest: Option<Version>,
}

/// What an [`Answer`] says.
pub struct AnswerView {
    pub kind: EdgeKind,
    pub module: Seq<char>,
    pub latest: Option<VersionView>,
}

impl DeepView for Answer {
    type V = AnswerView;

    open spec fn deep_view(&self) -> AnswerView {
        AnswerView {
            kind: self.kind,
            module: self.module@,
            latest: self.latest.deep_view(),
        }
    }
}

/// The latest version of `module`, by the first answer on it.
pub open spec fn latest_of(
    answers: Seq<AnswerView>,
    kind: EdgeKind,
    module: Seq<char>,
) -> Option<VersionView>
    decreases answers.len(),
{
    if answers.len() == 0 {
        None
    } else if answers[0].kind == kind && answers[0].module == module {
        answers[0].latest
    } else {
        latest_of(answers.skip(1), kind, module)
    }
}

/// The candidate that the edge `e` of the repo is, if it needs a bump.
pub open spec fn candidate_for(
    repo: RepoRefView,
    e: DepEdgeView,
    answers: Seq<AnswerView>,
    cfg: DiscoverConfigView,
) -> Option<CandidateView> {
    if e.current is Other || cfg.excluded_by_only_internal(e.module) {
        None
    } else {
        match latest_of(answers, e.kind, e.module) {
            Some(v) => if edge::decision(e.current, v, cfg.force) is NeedsBump {
                Some(
                    CandidateView {
                        repo,
                        module: e.module,
                        manifest_path: e.manifest_path,
                        kind: e.kind,
                        current: e.current,
                        latest: v.text(),
                        decision: DecisionView::NeedsBump,
                    },
                )
            } else {
                None
            },
            None => None,
        }
    }
}

/// The candidates among the given edges of a repo, in order.
pub open spec fn repo_candidates(
    repo: RepoRefView,
    edges: Seq<DepEdgeView>,
    answers: Seq<AnswerView>,
    cfg: DiscoverConfigView,
) -> Seq<CandidateView>
    decreases edges.len(),
{
    if edges.len() == 0 {
        seq![]
    } else {
        let init = repo_candidates(repo, edges.drop_last(), answers, cfg);
        match candidate_for(repo, edges.last(), answers, cfg) {
            Some(c) => init.push(c),
            None => init,
        }
    }
}

/// The candidates among the given nodes, in order.
pub open spec fn all_candidates(
    ns: Seq<NodeView>,
    answers: Seq<AnswerView>,
    cfg: DiscoverConfigView,
) -> Seq<CandidateView>
    decreases ns.len(),
{
    if ns.len() == 0 {
        seq![]
    } else {
        all_candidates(ns.drop_last(), answers, cfg) + repo_candidates(
            ns.last().repo,
            ns.last().edges,
            answers,
            cfg,
        )
    }
}

/// Candidates are listed by repo, then by module.
impl Ranked for Candidate {
    open spec fn before(a: CandidateView, b: CandidateView) -> bool {
        text::text_lt(a.repo.key(), b.repo.key()) || a.repo.key() == b.repo.key() && text::text_lt(
            a.module,
            b.module,
        )
    }

    proof fn before_is_asymmetric(a: CandidateView, b: CandidateView) {
        text::text_lt_irreflexive(a.repo.key());
        text::text_lt_irreflexive(a.module);
        if Self::before(a, b) && Self::before(b, a) {
            if a.repo.key() == b.repo.key() {
                text::text_lt_transitive(a.module, b.module, a.module);
            } else {
                text::text_lt_transitive(a.repo.key(), b.repo.key(), a.repo.key());
            }
        }
    }

    proof fn not_before_is_transitive(a: CandidateView, b: CandidateView, c: CandidateView) {
        text::text_lt_total(a.repo.key(), b.repo.key());
        text::text_lt_total(b.repo.key(), c.repo.key());
        text::text_lt_total(a.module, b.module);
        text::text_lt_total(b.module, c.module);
        text::text_lt_irreflexive(a.repo.key());
        text::text_lt_irreflexive(a.module);
        if Self::before(c, a) {
            if text::text_lt(a.repo.key(), b.repo.key()) && text::text_lt(
                b.repo.key(),
                c.repo.key(),
            ) {
                text::text_lt_transitive(a.repo.key(), b.repo.key(), c.repo.key());
            }
            if text::text_lt(c.repo.key(), a.repo.key()) {
                if text::text_lt(a.repo.key(), c.repo.key()) {
                    text::text_lt_transitive(a.repo.key(), c.repo.key(), a.repo.key());
                }
            } else {
                if text::text_lt(a.module, b.module) && text::text_lt(b.module, c.module) {
                    text::text_lt_transitive(a.module, b.module, c.module);
                }
                if text::text_lt(a.module, c.module) {
                    text::text_lt_transitive(a.module, c.module, a.module);
                }
                if text::text_lt(a.repo.key(), b.repo.key()) {
                    if text::text_lt(b.repo.key(), c.repo.key()) {
                        text::text_lt_transitive(a.repo.key(), b.repo.key(), a.repo.key());
                    }
                }
            }
        }
    }

    fn precedes(&self, other: &Self) -> (r: bool) {
        let a = repo_key(&self.repo);
        let b = repo_key(&other.repo);
        text_before(a.as_str(), b.as_str()) || a == b && text_before(
            self.module.as_str(),
            other.module.as_str(),
        )
    }
}

/// The latest version of `module`, by the first answer on it.
fn find_latest<'a>(answers: &'a Vec<Answer>, kind: EdgeKind, module: &String) -> (r: Option<
    &'a Version,
>)
    ensures
        r.deep_view() == latest_of(answers.deep_view(), kind, module@),
{
    let ghost av = answers.deep_view();
    let mut i: usize = 0;
    assert(av.skip(0) =~= av);
    while i < answers.len()
        invariant
            av == answers.deep_view(),
            i <= answers@.len() == av.len(),
            latest_of(av, kind, module@) == latest_of(av.skip(i as int), kind, module@),
        decreases answers@.len() - i,
    {
        assert(av.skip(i as int)[0] == answers@[i as int].deep_view());
        if answers[i].kind == kind && answers[i].module == *module {
            return match &answers[i].latest {
                Some(v) => Some(v),
                None => None,
            };
        }
        assert(av.skip(i as int).skip(1) =~= av.skip(i + 1));
        i = i + 1;
    }
    None
}

/// The candidate that the edge is, if it needs a bump.
pub fn candidate(repo: &RepoRef, e: &DepEdge, answers: &Vec<Answer>, cfg: &DiscoverConfig) -> (r:
    Option<Candidate>)
    ensures
        r.deep_view() == candidate_for(
            repo.deep_view(),
            e.deep_view(),
            answers.deep_view(),
            cfg.deep_view(),
        ),
        // A pin below the version that was answered is reported.
        e.deep_view().current matches ConstraintView::Exact(v) ==> (forall|t: VersionView|
            !cfg.only_internal && #[trigger] is_answered(
                answers.deep_view(),
                e.kind,
                e.deep_view().module,
                t,
            ) && v.release_lt(t) ==> r is Some),
{
    proof {
        assert forall|t: VersionView| #[trigger]
            is_answered(answers.deep_view(), e.kind, e.deep_view().module, t) implies latest_of(
            answers.deep_view(),
            e.kind,
            e.deep_view().module,
        ) == Some(t) by {
            answered_is_latest(answers.deep_view(), e.kind, e.deep_view().module, t);
        }
    }
    // A non-semver spec (`catalog:`, `workspace:*`, a URL) carries no version here
    // to compare against or rewrite — the real version lives elsewhere (pnpm's
    // catalog block) or nowhere. Once a SIBLING edge polls the same module (a
    // catalog entry and a `"dep": "catalog:"` pin name the same package), the
    // opaque edge would ride in on that answer and propose rewriting `"catalog:"`
    // into a literal version — destroying the indirection. Skip explicitly.
    match &e.current {
        VersionConstraint::Other(_) => {
            return None;
        },
        _ => {},
    }
    if cfg.excluded_by_only_internal(e.module.as_str()) {
        return None;
    }
    match find_latest(answers, e.kind, &e.module) {
        Some(latest) => match decide(&e.current, latest, cfg.force) {
            BumpDecision::NeedsBump => Some(
                Candidate {
                    repo: repo.clone(),
                    module: e.module.clone(),
                    manifest_path: e.manifest_path.clone(),
                    kind: e.kind,
                    current: e.current.clone(),
                    latest: latest.to_text(),
                    decision: BumpDecision::NeedsBump,
                },
            ),
            _ => None,
        },
        None => None,
    }
}

/// Appends the candidates of one repo.
fn append_candidates(
    out: &mut Vec<Candidate>,
    node: &RepoNode,
    answers: &Vec<Answer>,
    cfg: &DiscoverConfig,
)
    ensures
        final(out).deep_view() == old(out).deep_view() + repo_candidates(
            node.deep_view().repo,
            node.deep_view().edges,
            answers.deep_view(),
            cfg.deep_view(),
        ),
{
    let ghost start = out.deep_view();
    let ghost es = node.edges.deep_view();
    let ghost repo = node.repo.deep_view();
    let ghost av = answers.deep_view();
    let ghost c = cfg.deep_view();
    let mut j: usize = 0;
    assert(start + repo_candidates(repo, es.take(0), av, c) =~= start);
    while j < node.edges.len()
        invariant
            es == node.edges.deep_view(),
            repo == node.repo.deep_view(),
            av == answers.deep_view(),
            c == cfg.deep_view(),
            j <= node.edges@.len() == es.len(),
            out.deep_view() == start + repo_candidates(repo, es.take(j as int), av, c),
        decreases node.edges@.len() - j,
    {
        let ghost before = out.deep_view();
        assert(es.take(j + 1).drop_last() =~= es.take(j as int));
        assert(es.take(j + 1).last() == node.edges@[j as int].deep_view());
        if let Some(x) = candidate(&node.repo, &node.edges[j], answers, cfg) {
            out.push(x);
            assert(out.deep_view() =~= before.push(x.deep_view()));
        }
        assert(out.deep_view() =~= start + repo_candidates(repo, es.take(j + 1), av, c));
        j = j + 1;
    }
    assert(es.take(es.len() as int) =~= es);
}

/// One [`Candidate`] per (repo, dependency) that needs a bump by the given
/// answers, stably ordered by repo then module.
pub fn candidates_from(nodes: &Vec<RepoNode>, answers: &Vec<Answer>, cfg: &DiscoverConfig) -> (r:
    Vec<Candidate>)
    ensures
        r.deep_view() == sort::sorted::<Candidate>(
            all_candidates(nodes.deep_view(), answers.deep_view(), cfg.deep_view()),
        ),
{
    let ghost ns = nodes.deep_view();
    let ghost av = answers.deep_view();
    let ghost c = cfg.deep_view();
    let mut out: Vec<Candidate> = Vec::new();
    let mut i: usize = 0;
    assert(out.deep_view() =~= all_candidates(ns.take(0), av, c));
    while i < nodes.len()
        invariant
            ns == nodes.deep_view(),
            av == answers.deep_view(),
            c == cfg.deep_view(),
            i <= nodes@.len() == ns.len(),
            out.deep_view() == all_candidates(ns.take(i as int), av, c),
        decreases nodes@.len() - i,
    {
        assert(ns.take(i + 1).drop_last() =~= ns.take(i as int));
        assert(ns.take(i + 1).last() == nodes@[i as int].deep_view());
        append_candidates(&mut out, &nodes[i], answers, cfg);
        i = i + 1;
    }
    assert(ns.take(ns.len() as int) =~= ns);
    sort::sort(out)
}

/// Is `latest` what some reply of a datasource comes to?
pub open spec fn is_reply(latest: Option<VersionView>) -> bool {
    exists|info: Option<VersionInfoView>| #[trigger] usable_version(info) == latest
}

/// Do the answers answer exactly the lookups that the nodes want, each once,
/// whatever the datasources replied?
pub open spec fn answers_lookups(
    ns: Seq<NodeView>,
    kinds: Seq<EdgeKind>,
    cfg: DiscoverConfigView,
    answers: Seq<AnswerView>,
) -> bool {
    &&& forall|i: int|
        0 <= i < answers.len() ==> wanted_lookup(
            ns,
            kinds,
            cfg,
            (#[trigger] answers[i]).kind,
            answers[i].module,
        ) && is_reply(answers[i].latest)
    &&& forall|kind: EdgeKind, module: Seq<char>| #[trigger]
        wanted_lookup(ns, kinds, cfg, kind, module) ==> exists|i: int|
            0 <= i < answers.len() && (#[trigger] answers[i]).kind == kind && answers[i].module
                == module
    &&& forall|i: int, j: int|
        0 <= i < j < answers.len() ==> !((#[trigger] answers[i]).kind == (
        #[trigger] answers[j]).kind && answers[i].module == answers[j].module)
}

/// Are `kinds` what the datasources say they resolve, one by one?
pub open spec fn kinds_said<D: Datasource>(ds: Seq<D>, kinds: Seq<EdgeKind>) -> bool {
    &&& kinds.len() == ds.len()
    &&& forall|i: int|
        0 <= i < ds.len() ==> call_ensures(D::kind, (&#[trigger] ds[i],), kinds[i])
}

/// What a reply says; one that errors says nothing.
pub open spec fn said(reply: Result<Option<VersionInfo>, String>) -> Option<VersionInfoView> {
    match reply {
        Ok(info) => info.deep_view(),
        Err(_) => None,
    }
}

/// Did `d`, asked for `module`, give a reply that comes to `latest`?
pub open spec fn replied<D: Datasource>(
    d: D,
    module: Seq<char>,
    latest: Option<VersionView>,
) -> bool {
    exists|package: &str, reply: Result<Option<VersionInfo>, String>| #[trigger]
        call_ensures(D::latest, (&d, package), reply) && package@ == module && usable_version(
            said(reply),
        ) == latest
}

/// Is the `k`-th datasource the first of its kind?
pub open spec fn first_of_kind(kinds: Seq<EdgeKind>, kind: EdgeKind, k: int) -> bool {
    &&& 0 <= k < kinds.len()
    &&& kinds[k] == kind
    &&& forall|j: int| 0 <= j < k ==> kinds[j] != kind
}

/// Is the answer what the first datasource of its kind replied?
pub open spec fn answered<D: Datasource>(
    ds: Seq<D>,
    kinds: Seq<EdgeKind>,
    answer: AnswerView,
) -> bool {
    exists|k: int| #[trigger]
        first_of_kind(kinds, answer.kind, k) && replied(ds[k], answer.module, answer.latest)
}

/// Asks the first datasource of the kind for the latest version of `module`. A
/// lookup that errors is treated as "no info" so one flaky registry response
/// can't sink the whole scan.
fn look_up<D: Datasource>(
    datasources: &Vec<D>,
    kinds: &Vec<EdgeKind>,
    kind: EdgeKind,
    module: &String,
) -> (r: Answer)
    requires
        kinds@.len() == datasources@.len(),
        kinds@.contains(kind),
    ensures
        r.deep_view().kind == kind,
        r.deep_view().module == module@,
        is_reply(r.deep_view().latest),
        answered(datasources@, kinds@, r.deep_view()),
{
    let mut i: usize = 0;
    while kinds[i] != kind
        invariant
            i < kinds@.len() == datasources@.len(),
            kinds@.contains(kind),
            forall|j: int| 0 <= j < i ==> kinds@[j] != kind,
        decreases kinds@.len() - i,
    {
        assert(exists|j: int| i < j < kinds@.len() && kinds@[j] == kind);
        assert(i < kinds.len() - 1);
        i = i + 1;
    }
    let package = module.as_str();
    let reply = datasources[i].latest(package);
    let ghost d = datasources@[i as int];
    assert(call_ensures(D::latest, (&d, package), reply));
    let ghost info = said(reply);
    let given = match reply {
        Ok(info) => info,
        Err(_) => None,
    };
    assert(given.deep_view() == info);
    let answer = Answer { kind, module: module.clone(), latest: resolve_latest(&given) };
    proof {
        let a = answer.deep_view();
        assert(usable_version(info) == a.latest);
        assert(replied(d, a.module, a.latest));
        assert(first_of_kind(kinds@, a.kind, i as int));
    }
    answer
}

/// Scan assembled `nodes` for external-dependency updates, polling each matching
/// [`Datasource`]. Each distinct `(kind, module)` is polled once. Edges that are
/// internal, non-semver (`workspace:*`, URLs), prerelease-only, or have no
/// datasource for their ecosystem are skipped. Returns one [`Candidate`] per
/// (repo, dependency) that needs a bump, stably ordered by repo then module.
pub fn find_candidates<D: Datasource>(
    nodes: &Vec<RepoNode>,
    datasources: &Vec<D>,
    cfg: &DiscoverConfig,
) -> (r: Vec<Candidate>)
    ensures
        exists|kinds: Seq<EdgeKind>, answers: Seq<AnswerView>| #[trigger]
            answers_lookups(nodes.deep_view(), kinds, cfg.deep_view(), answers) && kinds_said(
                datasources@,
                kinds,
            ) && (forall|i: int|
                0 <= i < answers.len() ==> answered(datasources@, kinds, #[trigger] answers[i]))
                && r.deep_view() == sort::sorted::<Candidate>(
                all_candidates(nodes.deep_view(), answers, cfg.deep_view()),
            ),
{
    let ghost ns = nodes.deep_view();
    let ghost c = cfg.deep_view();
    let mut kinds: Vec<EdgeKind> = Vec::new();
    let mut i: usize = 0;
    while i < datasources.len()
        invariant
            i <= datasources@.len(),
            kinds@.len() == i,
            forall|j: int|
                0 <= j < i ==> call_ensures(D::kind, (&#[trigger] datasources@[j],), kinds@[j]),
        decreases datasources@.len() - i,
    {
        kinds.push(datasources[i].kind());
        i = i + 1;
    }
    let wants = lookups(nodes, &kinds, cfg);
    let ghost pairs = pairs_of(wants@);
    let mut answers: Vec<Answer> = Vec::new();
    let mut k: usize = 0;
    while k < wants.len()
        invariant
            k <= wants@.len(),
            answers@.len() == k,
            ns == nodes.deep_view(),
            c == cfg.deep_view(),
            pairs == pairs_of(wants@),
            kinds@.len() == datasources@.len(),
            forall|kind: EdgeKind, module: Seq<char>| #[trigger]
                pairs.contains((kind, module)) ==> wanted_lookup(ns, kinds@, c, kind, module),
            forall|j: int|
                0 <= j < k ==> (#[trigger] answers@[j]).deep_view().kind == wants@[j].0
                    && answers@[j].deep_view().module == wants@[j].1@ && is_reply(
                    answers@[j].deep_view().latest,
                ) && answered(datasources@, kinds@, answers@[j].deep_view()),
        decreases wants@.len() - k,
    {
        proof {
            assert(pairs[k as int] == (wants@[k as int].0, wants@[k as int].1@));
            assert(pairs.contains((wants@[k as int].0, wants@[k as int].1@)));
        }
        answers.push(look_up(datasources, &kinds, wants[k].0, &wants[k].1));
        k = k + 1;
    }
    proof {
        let av = answers.deep_view();
        assert forall|i: int| 0 <= i < av.len() implies (#[trigger] av[i]).kind == pairs[i].0
            && av[i].module == pairs[i].1 by {
            assert(pairs[i] == (wants@[i].0, wants@[i].1@));
        }
        assert forall|i: int| 0 <= i < av.len() implies wanted_lookup(
            ns,
            kinds@,
            c,
            (#[trigger] av[i]).kind,
            av[i].module,
        ) && is_reply(av[i].latest) by {
            assert(pairs[i] == (av[i].kind, av[i].module));
            assert(pairs.contains((av[i].kind, av[i].module)));
        }
        assert forall|kind: EdgeKind, module: Seq<char>| #[trigger]
            wanted_lookup(ns, kinds@, c, kind, module) implies exists|i: int|
            0 <= i < av.len() && (#[trigger] av[i]).kind == kind && av[i].module == module by {
            assert(pairs.contains((kind, module)));
            let i = choose|i: int| 0 <= i < pairs.len() && pairs[i] == (kind, module);
            assert(av[i].kind == kind && av[i].module == module);
        }
        assert(answers_lookups(ns, kinds@, c, av));
        assert(kinds_said(datasources@, kinds@));
        assert forall|i: int| 0 <= i < av.len() implies answered(
            datasources@,
            kinds@,
            #[trigger] av[i],
        ) by {
            assert(av[i] == answers@[i].deep_view());
        }
    }
    candidates_from(nodes, &answers, cfg)
}

// ─── laws ───────────────────────────────────────────────────────────────

/// A version was found for a module only where an answer gives one.
proof fn latest_has_answer(answers: Seq<AnswerView>, kind: EdgeKind, module: Seq<char>)
    ensures
        latest_of(answers, kind, module) is Some ==> exists|i: int|
            0 <= i < answers.len() && (#[trigger] answers[i]).kind == kind && answers[i].module
                == module,
    decreases answers.len(),
{
    if answers.len() > 0 && !(answers[0].kind == kind && answers[0].module == module) {
        let tail = answers.skip(1);
        latest_has_answer(tail, kind, module);
        if latest_of(answers, kind, module) is Some {
            let i = choose|i: int|
                0 <= i < tail.len() && (#[trigger] tail[i]).kind == kind && tail[i].module
                    == module;
            assert(answers[i + 1].kind == kind);
        }
    }
}

/// Discovery and the cascade stay disjoint: an edge on a module that is internal
/// is never a candidate, whatever the registries answer.
pub proof fn internal_is_never_a_candidate(
    ns: Seq<NodeView>,
    kinds: Seq<EdgeKind>,
    cfg: DiscoverConfigView,
    answers: Seq<AnswerView>,
    repo: RepoRefView,
    e: DepEdgeView,
)
    requires
        answers_lookups(ns, kinds, cfg, answers),
        internal(e.module, published_modules(ns), cfg),
    ensures
        candidate_for(repo, e, answers, cfg) is None,
{
    latest_has_answer(answers, e.kind, e.module);
    if latest_of(answers, e.kind, e.module) is Some {
        let i = choose|i: int|
            0 <= i < answers.len() && (#[trigger] answers[i]).kind == e.kind && answers[i].module
                == e.module;
        assert(wanted_lookup(ns, kinds, cfg, answers[i].kind, answers[i].module));
    }
}

/// Neither is an edge whose ecosystem has no datasource.
pub proof fn no_candidate_without_datasource(
    ns: Seq<NodeView>,
    kinds: Seq<EdgeKind>,
    cfg: DiscoverConfigView,
    answers: Seq<AnswerView>,
    repo: RepoRefView,
    e: DepEdgeView,
)
    requires
        answers_lookups(ns, kinds, cfg, answers),
        !kinds.contains(e.kind),
    ensures
        candidate_for(repo, e, answers, cfg) is None,
{
    latest_has_answer(answers, e.kind, e.module);
    if latest_of(answers, e.kind, e.module) is Some {
        let i = choose|i: int|
            0 <= i < answers.len() && (#[trigger] answers[i]).kind == e.kind && answers[i].module
                == e.module;
        assert(wanted_lookup(ns, kinds, cfg, answers[i].kind, answers[i].module));
    }
}

/// An opaque spec is never a candidate, whatever is known of its module, and
/// neither is an edge whose floor or pin is the latest version already, forced or
/// not.
pub proof fn nothing_to_rewrite_is_never_a_candidate(
    repo: RepoRefView,
    e: DepEdgeView,
    answers: Seq<AnswerView>,
    cfg: DiscoverConfigView,
)
    ensures
        e.current is Other ==> candidate_for(repo, e, answers, cfg) is None,
        latest_of(answers, e.kind, e.module) is None ==> candidate_for(repo, e, answers, cfg)
            is None,
        e.current.anchor() is Some && e.current.anchor() == latest_of(answers, e.kind, e.module)
            ==> candidate_for(repo, e, answers, cfg) is None,
        cfg.only_internal && candidate_for(repo, e, answers, cfg) is Some
            ==> cfg.matches_internal_prefix(e.module),
{
}

/// A candidate's version is a stable one: a prerelease is never proposed.
pub proof fn candidates_are_stable(
    ns: Seq<NodeView>,
    kinds: Seq<EdgeKind>,
    cfg: DiscoverConfigView,
    answers: Seq<AnswerView>,
    kind: EdgeKind,
    module: Seq<char>,
)
    requires
        answers_lookups(ns, kinds, cfg, answers),
    ensures
        latest_of(answers, kind, module) matches Some(v) ==> v.pre.len() == 0,
{
    latest_is_an_answer(answers, kind, module);
    if let Some(v) = latest_of(answers, kind, module) {
        let i = choose|i: int| 0 <= i < answers.len() && (#[trigger] answers[i]).latest == Some(v);
        assert(is_reply(answers[i].latest));
        let info = choose|info: Option<VersionInfoView>| #[trigger]
            usable_version(info) == Some(v);
        assert(usable_version(info) == Some(v));
    }
}

proof fn latest_is_an_answer(answers: Seq<AnswerView>, kind: EdgeKind, module: Seq<char>)
    ensures
        latest_of(answers, kind, module) matches Some(v) ==> exists|i: int|
            0 <= i < answers.len() && (#[trigger] answers[i]).latest == Some(v),
    decreases answers.len(),
{
    if answers.len() > 0 && !(answers[0].kind == kind && answers[0].module == module) {
        let tail = answers.skip(1);
        latest_is_an_answer(tail, kind, module);
        if let Some(v) = latest_of(answers, kind, module) {
            let i = choose|i: int| 0 <= i < tail.len() && (#[trigger] tail[i]).latest == Some(v);
            assert(answers[i + 1].latest == Some(v));
        }
    }
}

/// Is the candidate not on a module whose lookup was lost?
pub open spec fn not_lost(lost: spec_fn(EdgeKind, Seq<char>) -> bool, c: CandidateView) -> bool {
    !lost(c.kind, c.module)
}

/// Do the answers `b` say what `a` say, but nothing where the lookup was lost?
pub open spec fn loses(
    a: Seq<AnswerView>,
    b: Seq<AnswerView>,
    lost: spec_fn(EdgeKind, Seq<char>) -> bool,
) -> bool {
    forall|kind: EdgeKind, module: Seq<char>| #[trigger]
        latest_of(b, kind, module) == (if lost(kind, module) {
            None
        } else {
            latest_of(a, kind, module)
        })
}

proof fn repo_loses(
    repo: RepoRefView,
    edges: Seq<DepEdgeView>,
    a: Seq<AnswerView>,
    b: Seq<AnswerView>,
    lost: spec_fn(EdgeKind, Seq<char>) -> bool,
    cfg: DiscoverConfigView,
)
    requires
        loses(a, b, lost),
    ensures
        repo_candidates(repo, edges, b, cfg) == repo_candidates(repo, edges, a, cfg).filter(
            |c: CandidateView| not_lost(lost, c),
        ),
    decreases edges.len(),
{
    reveal(Seq::filter);
    if edges.len() > 0 {
        let e = edges.last();
        repo_loses(repo, edges.drop_last(), a, b, lost, cfg);
        assert(latest_of(b, e.kind, e.module) == (if lost(e.kind, e.module) {
            None
        } else {
            latest_of(a, e.kind, e.module)
        }));
        if let Some(c) = candidate_for(repo, e, a, cfg) {
            let init = repo_candidates(repo, edges.drop_last(), a, cfg);
            assert(init.push(c).drop_last() =~= init);
        }
    }
}

proof fn all_lose(
    ns: Seq<NodeView>,
    a: Seq<AnswerView>,
    b: Seq<AnswerView>,
    lost: spec_fn(EdgeKind, Seq<char>) -> bool,
    cfg: DiscoverConfigView,
)
    requires
        loses(a, b, lost),
    ensures
        all_candidates(ns, b, cfg) == all_candidates(ns, a, cfg).filter(
            |c: CandidateView| not_lost(lost, c),
        ),
    decreases ns.len(),
{
    if ns.len() == 0 {
        reveal(Seq::filter);
    } else {
        all_lose(ns.drop_last(), a, b, lost, cfg);
        repo_loses(ns.last().repo, ns.last().edges, a, b, lost, cfg);
        Seq::filter_distributes_over_add(
            all_candidates(ns.drop_last(), a, cfg),
            repo_candidates(ns.last().repo, ns.last().edges, a, cfg),
            |c: CandidateView| not_lost(lost, c),
        );
    }
}

/// A lookup that fails costs only the candidates on its own module: where some
/// answers are lost, the report is the one with all answers but for those
/// candidates, in the same order.
pub proof fn lost_lookups_cost_only_their_modules(
    ns: Seq<NodeView>,
    a: Seq<AnswerView>,
    b: Seq<AnswerView>,
    lost: spec_fn(EdgeKind, Seq<char>) -> bool,
    cfg: DiscoverConfigView,
)
    requires
        loses(a, b, lost),
    ensures
        sort::sorted::<Candidate>(all_candidates(ns, b, cfg)) == sort::sorted::<Candidate>(
            all_candidates(ns, a, cfg),
        ).filter(|c: CandidateView| not_lost(lost, c)),
{
    all_lose(ns, a, b, lost, cfg);
    sort::sorting_keeps_a_selection::<Candidate>(
        all_candidates(ns, a, cfg),
        |c: CandidateView| not_lost(lost, c),
    );
}

/// Is each answer what the reply to its lookup comes to?
pub open spec fn answers_say(
    answers: Seq<AnswerView>,
    replies: spec_fn(EdgeKind, Seq<char>) -> Result<Option<VersionInfo>, String>,
) -> bool {
    forall|i: int|
        0 <= i < answers.len() ==> (#[trigger] answers[i]).latest == usable_version(
            said(replies(answers[i].kind, answers[i].module)),
        )
}

/// The reply with a failure turned into "not found".
pub open spec fn without_failure(reply: Result<Option<VersionInfo>, String>) -> Result<
    Option<VersionInfo>,
    String,
> {
    match reply {
        Ok(info) => Ok(info),
        Err(_) => Ok(None),
    }
}

/// A failing lookup never fails the scan, and counts as "not found": with each
/// failure turned into that, the report is the same.
pub proof fn failed_lookups_count_as_not_found(
    ns: Seq<NodeView>,
    kinds: Seq<EdgeKind>,
    cfg: DiscoverConfigView,
    replies: spec_fn(EdgeKind, Seq<char>) -> Result<Option<VersionInfo>, String>,
    a: Seq<AnswerView>,
    b: Seq<AnswerView>,
)
    requires
        answers_lookups(ns, kinds, cfg, a),
        answers_lookups(ns, kinds, cfg, b),
        answers_say(a, replies),
        answers_say(b, |kind: EdgeKind, module: Seq<char>| without_failure(replies(kind, module))),
    ensures
        sort::sorted::<Candidate>(all_candidates(ns, a, cfg)) == sort::sorted::<Candidate>(
            all_candidates(ns, b, cfg),
        ),
{
    let none = |kind: EdgeKind, module: Seq<char>| false;
    assert forall|kind: EdgeKind, module: Seq<char>| #[trigger]
        latest_of(b, kind, module) == latest_of(a, kind, module) by {
        if wanted_lookup(ns, kinds, cfg, kind, module) {
            let i = choose|i: int|
                0 <= i < a.len() && (#[trigger] a[i]).kind == kind && a[i].module == module;
            let j = choose|j: int|
                0 <= j < b.len() && (#[trigger] b[j]).kind == kind && b[j].module == module;
            latest_is_the_answer(a, i);
            latest_is_the_answer(b, j);
        } else {
            latest_has_answer(a, kind, module);
            latest_has_answer(b, kind, module);
        }
    }
    assert(loses(a, b, none));
    all_lose(ns, a, b, none, cfg);
    all_are_kept(all_candidates(ns, a, cfg), |c: CandidateView| not_lost(none, c));
}

proof fn all_are_kept<A>(s: Seq<A>, p: spec_fn(A) -> bool)
    requires
        forall|x: A| #[trigger] p(x),
    ensures
        s.filter(p) == s,
    decreases s.len(),
{
    reveal(Seq::filter);
    if s.len() > 0 {
        all_are_kept(s.drop_last(), p);
        assert(s.drop_last().push(s.last()) =~= s);
    }
}

proof fn latest_is_the_answer(answers: Seq<AnswerView>, i: int)
    requires
        0 <= i < answers.len(),
        forall|j: int|
            0 <= j < i ==> !((#[trigger] answers[j]).kind == answers[i].kind && answers[j].module
                == answers[i].module),
    ensures
        latest_of(answers, answers[i].kind, answers[i].module) == answers[i].latest,
    decreases answers.len(),
{
    if i > 0 {
        let tail = answers.skip(1);
        assert(answers[0].kind != answers[i].kind || answers[0].module != answers[i].module);
        assert(tail[i - 1] == answers[i]);
        assert forall|j: int| 0 <= j < i - 1 implies !((#[trigger] tail[j]).kind
            == tail[i - 1].kind && tail[j].module == tail[i - 1].module) by {
            assert(tail[j] == answers[j + 1]);
        }
        latest_is_the_answer(tail, i - 1);
    }
}

/// A module published by a scanned repo is internal in every mode.
pub proof fn published_is_internal(
    ns: Seq<NodeView>,
    cfg: DiscoverConfigView,
    i: int,
    m: Seq<char>,
)
    requires
        0 <= i < ns.len(),
        ns[i].published == Some(m),
    ensures
        internal(m, published_modules(ns), cfg),
{
    published_lists(ns, i, m);
}

proof fn published_lists(ns: Seq<NodeView>, i: int, m: Seq<char>)
    requires
        0 <= i < ns.len(),
        ns[i].published == Some(m),
    ensures
        published_modules(ns).contains(m),
    decreases ns.len(),
{
    let init = published_modules(ns.drop_last());
    if i == ns.len() - 1 {
        assert(published_modules(ns)[init.len() as int] == m);
    } else {
        assert(ns.drop_last()[i] == ns[i]);
        published_lists(ns.drop_last(), i, m);
        let k = choose|k: int| 0 <= k < init.len() && init[k] == m;
        assert(published_modules(ns)[k] == m);
    }
}

// ─── what a report holds ────────────────────────────────────────────────

/// Is the answer at `i` the first one on `module` in `kind`?
pub open spec fn answers_first(
    answers: Seq<AnswerView>,
    kind: EdgeKind,
    module: Seq<char>,
    i: int,
) -> bool {
    &&& 0 <= i < answers.len()
    &&& answers[i].kind == kind
    &&& answers[i].module == module
    &&& forall|j: int|
        0 <= j < i ==> !((#[trigger] answers[j]).kind == kind && answers[j].module == module)
}

/// Does the first of the answers on `module` in `kind` give the version `v`?
pub open spec fn is_answered(
    answers: Seq<AnswerView>,
    kind: EdgeKind,
    module: Seq<char>,
    v: VersionView,
) -> bool {
    exists|i: int| #[trigger]
        answers_first(answers, kind, module, i) && answers[i].latest == Some(v)
}

proof fn answered_is_latest(
    answers: Seq<AnswerView>,
    kind: EdgeKind,
    module: Seq<char>,
    v: VersionView,
)
    ensures
        is_answered(answers, kind, module, v) <==> latest_of(answers, kind, module) == Some(v),
{
    if is_answered(answers, kind, module, v) {
        let i = choose|i: int| #[trigger]
            answers_first(answers, kind, module, i) && answers[i].latest == Some(v);
        latest_is_the_answer(answers, i);
    }
    if latest_of(answers, kind, module) == Some(v) {
        let i = first_answer_at(answers, kind, module);
        latest_is_the_answer(answers, i);
        assert(answers_first(answers, kind, module, i));
    }
}

proof fn first_answer_at(answers: Seq<AnswerView>, kind: EdgeKind, module: Seq<char>) -> (i: int)
    requires
        latest_of(answers, kind, module) is Some,
    ensures
        answers_first(answers, kind, module, i),
    decreases answers.len(),
{
    if answers[0].kind == kind && answers[0].module == module {
        0
    } else {
        let tail = answers.skip(1);
        let i = first_answer_at(tail, kind, module);
        assert(answers[i + 1] == tail[i]);
        assert forall|j: int| 0 <= j < i + 1 implies !((#[trigger] answers[j]).kind == kind
            && answers[j].module == module) by {
            if j > 0 {
                assert(tail[j - 1] == answers[j]);
            }
        }
        i + 1
    }
}

/// Does the name of `module` begin with one of the configured prefixes?
pub open spec fn is_first_party(cfg: DiscoverConfigView, module: Seq<char>) -> bool {
    exists|i: int|
        0 <= i < cfg.internal_prefixes.len() && (#[trigger] cfg.internal_prefixes[i]).len()
            <= module.len() && module.take(cfg.internal_prefixes[i].len() as int)
            == cfg.internal_prefixes[i]
}

proof fn first_party_is_prefixed(cfg: DiscoverConfigView, module: Seq<char>)
    ensures
        is_first_party(cfg, module) <==> cfg.matches_internal_prefix(module),
{
    if cfg.matches_internal_prefix(module) {
        let i = choose|i: int|
            0 <= i < cfg.internal_prefixes.len() && (
            #[trigger] cfg.internal_prefixes[i]).is_prefix_of(module);
        assert(module.take(cfg.internal_prefixes[i].len() as int) =~= module.subrange(
            0,
            cfg.internal_prefixes[i].len() as int,
        ));
    }
    if is_first_party(cfg, module) {
        let i = choose|i: int|
            0 <= i < cfg.internal_prefixes.len() && (#[trigger] cfg.internal_prefixes[i]).len()
                <= module.len() && module.take(cfg.internal_prefixes[i].len() as int)
                == cfg.internal_prefixes[i];
        assert(module.take(cfg.internal_prefixes[i].len() as int) =~= module.subrange(
            0,
            cfg.internal_prefixes[i].len() as int,
        ));
        assert(cfg.internal_prefixes[i].is_prefix_of(module));
    }
}

/// Is the edge behind: is it not opaque, in the scope of the report, and answered
/// with the version `v`, which it needs a bump to?
pub open spec fn is_behind(
    e: DepEdgeView,
    answers: Seq<AnswerView>,
    cfg: DiscoverConfigView,
    v: VersionView,
) -> bool {
    &&& e.current !is Other
    &&& cfg.only_internal ==> is_first_party(cfg, e.module)
    &&& is_answered(answers, e.kind, e.module, v)
    &&& edge::decision(e.current, v, cfg.force) is NeedsBump
}

/// An edge is a candidate just where it is behind, and the candidate says where it
/// stands, what it says now, and the version to go to.
pub proof fn candidates_are_the_edges_behind(
    repo: RepoRefView,
    e: DepEdgeView,
    answers: Seq<AnswerView>,
    cfg: DiscoverConfigView,
    v: VersionView,
)
    ensures
        is_behind(e, answers, cfg, v) ==> candidate_for(repo, e, answers, cfg) == Some(
            CandidateView {
                repo,
                module: e.module,
                manifest_path: e.manifest_path,
                kind: e.kind,
                current: e.current,
                latest: v.text(),
                decision: DecisionView::NeedsBump,
            },
        ),
        (forall|w: VersionView| !#[trigger] is_behind(e, answers, cfg, w)) ==> candidate_for(
            repo,
            e,
            answers,
            cfg,
        ) is None,
{
    first_party_is_prefixed(cfg, e.module);
    answered_is_latest(answers, e.kind, e.module, v);
    if candidate_for(repo, e, answers, cfg) is Some {
        let w = latest_of(answers, e.kind, e.module)->0;
        answered_is_latest(answers, e.kind, e.module, w);
        assert(is_behind(e, answers, cfg, w));
    }
}

/// A pin that the answered version is not below is behind it, whatever the
/// configuration forces; so is one that is out of a caret's or a range's reach; and
/// a forced report holds every floor that could be advanced.
pub proof fn what_is_behind(
    e: DepEdgeView,
    answers: Seq<AnswerView>,
    cfg: DiscoverConfigView,
    v: VersionView,
)
    requires
        is_answered(answers, e.kind, e.module, v),
        cfg.only_internal ==> is_first_party(cfg, e.module),
    ensures
        e.current matches ConstraintView::Exact(w) ==> (is_behind(e, answers, cfg, v) <==> w != v
            && version::version_precedence(w, v) !is Higher),
        e.current matches ConstraintView::Caret(w) ==> (is_behind(e, answers, cfg, v) <==> w != v
            && version::version_precedence(w, v) !is Higher && (cfg.force
            || !version::requirement_met(seq!['^'] + w.text(), v))),
        e.current matches ConstraintView::Range(req) ==> (is_behind(e, answers, cfg, v)
            <==> cfg.force || !version::requirement_met(req, v)),
{
    edge::decisions_are(e.current, v, cfg.force);
}

/// Every dependency that the nodes declare, with the repo that declares it, in
/// order.
pub open spec fn declared(ns: Seq<NodeView>) -> Seq<(RepoRefView, DepEdgeView)>
    decreases ns.len(),
{
    if ns.len() == 0 {
        seq![]
    } else {
        declared(ns.drop_last()) + ns.last().edges.map_values(
            |e: DepEdgeView| (ns.last().repo, e),
        )
    }
}

/// A dependency is declared where it is an edge of a node.
pub proof fn declared_is_every_edge(ns: Seq<NodeView>, x: (RepoRefView, DepEdgeView))
    ensures
        declared(ns).contains(x) <==> exists|i: int, j: int|
            #![trigger ns[i].edges[j]]
            0 <= i < ns.len() && 0 <= j < ns[i].edges.len() && x == (ns[i].repo, ns[i].edges[j]),
    decreases ns.len(),
{
    if ns.len() > 0 {
        let init = ns.drop_last();
        let n = ns.last();
        let a = declared(init);
        let b = n.edges.map_values(|e: DepEdgeView| (n.repo, e));
        let all = declared(ns);
        assert(ns[ns.len() - 1] == n);
        declared_is_every_edge(init, x);
        if all.contains(x) {
            let k = choose|k: int| 0 <= k < all.len() && all[k] == x;
            if k < a.len() {
                assert(a[k] == x);
                assert(a.contains(x));
                let (i, j) = choose|i: int, j: int|
                    #![trigger init[i].edges[j]]
                    0 <= i < init.len() && 0 <= j < init[i].edges.len() && x == (
                        init[i].repo,
                        init[i].edges[j],
                    );
                assert(ns[i].edges[j] == init[i].edges[j]);
            } else {
                assert(b[k - a.len()] == x);
                assert(ns[ns.len() - 1].edges[k - a.len()] == x.1);
            }
        }
        if exists|i: int, j: int|
            #![trigger ns[i].edges[j]]
            0 <= i < ns.len() && 0 <= j < ns[i].edges.len() && x == (ns[i].repo, ns[i].edges[j]) {
            let (i, j) = choose|i: int, j: int|
                #![trigger ns[i].edges[j]]
                0 <= i < ns.len() && 0 <= j < ns[i].edges.len() && x == (
                    ns[i].repo,
                    ns[i].edges[j],
                );
            if i < init.len() {
                assert(init[i].edges[j] == ns[i].edges[j]);
                assert(a.contains(x));
                let k = choose|k: int| 0 <= k < a.len() && a[k] == x;
                assert(all[k] == x);
            } else {
                assert(b[j] == x);
                assert(all[a.len() + j] == x);
            }
        }
    }
}

/// The candidate that each declared dependency is, if it is one.
pub open spec fn judging(answers: Seq<AnswerView>, cfg: DiscoverConfigView) -> spec_fn(
    (RepoRefView, DepEdgeView),
) -> Option<CandidateView> {
    |x: (RepoRefView, DepEdgeView)| candidate_for(x.0, x.1, answers, cfg)
}

proof fn repo_selection(
    all: Seq<(RepoRefView, DepEdgeView)>,
    out: Seq<CandidateView>,
    repo: RepoRefView,
    edges: Seq<DepEdgeView>,
    answers: Seq<AnswerView>,
    cfg: DiscoverConfigView,
)
    requires
        select::is_selection(
            all,
            out,
            judging(answers, cfg),
        ),
    ensures
        select::is_selection(
            all + edges.map_values(|e: DepEdgeView| (repo, e)),
            out + repo_candidates(repo, edges, answers, cfg),
            judging(answers, cfg),
        ),
    decreases edges.len(),
{
    let pick = judging(answers, cfg);
    let rows = edges.map_values(|e: DepEdgeView| (repo, e));
    let made = repo_candidates(repo, edges, answers, cfg);
    if edges.len() == 0 {
        assert(all + rows =~= all);
        assert(out + made =~= out);
    } else {
        let init = edges.drop_last();
        let before = init.map_values(|e: DepEdgeView| (repo, e));
        repo_selection(all, out, repo, init, answers, cfg);
        select::one_more_selected(
            all + before,
            out + repo_candidates(repo, init, answers, cfg),
            pick,
            (repo, edges.last()),
        );
        assert((all + before).push((repo, edges.last())) =~= all + rows);
        if let Some(c) = candidate_for(repo, edges.last(), answers, cfg) {
            assert((out + repo_candidates(repo, init, answers, cfg)).push(c) =~= out + made);
        }
    }
}

proof fn all_selection(ns: Seq<NodeView>, answers: Seq<AnswerView>, cfg: DiscoverConfigView)
    ensures
        select::is_selection(
            declared(ns),
            all_candidates(ns, answers, cfg),
            judging(answers, cfg),
        ),
    decreases ns.len(),
{
    let pick = judging(answers, cfg);
    if ns.len() == 0 {
        select::nothing_selected(declared(ns), all_candidates(ns, answers, cfg), pick);
    } else {
        all_selection(ns.drop_last(), answers, cfg);
        repo_selection(
            declared(ns.drop_last()),
            all_candidates(ns.drop_last(), answers, cfg),
            ns.last().repo,
            ns.last().edges,
            answers,
            cfg,
        );
    }
}

/// A report lists each declared dependency that is behind, once for each time it is
/// declared, and nothing else; by repo, then by module.
pub proof fn report_lists_what_is_behind(
    ns: Seq<NodeView>,
    answers: Seq<AnswerView>,
    cfg: DiscoverConfigView,
    i: int,
    j: int,
)
    ensures
        ({
            let report = sort::sorted::<Candidate>(all_candidates(ns, answers, cfg));
            &&& exists|found: Seq<CandidateView>| #[trigger]
                select::is_selection(
                    declared(ns),
                    found,
                    judging(answers, cfg),
                ) && found.to_multiset() == report.to_multiset()
            &&& 0 <= i < j < report.len() ==> !text::text_lt(
                report[j].repo.key(),
                report[i].repo.key(),
            )
            &&& 0 <= i < j < report.len() && report[i].repo.key() == report[j].repo.key()
                ==> !text::text_lt(report[j].module, report[i].module)
        }),
{
    let all = all_candidates(ns, answers, cfg);
    let report = sort::sorted::<Candidate>(all);
    all_selection(ns, answers, cfg);
    sort::sorted_is_in_order::<Candidate>(all);
    assert(select::is_selection(
        declared(ns),
        all,
        judging(answers, cfg),
    ) && all.to_multiset() == report.to_multiset());
    if 0 <= i < j < report.len() {
        assert(!Candidate::before(report[j], report[i]));
    }
}

/// Every dependency that is behind is in the report: for each edge of each node.
pub proof fn behind_is_reported(
    ns: Seq<NodeView>,
    answers: Seq<AnswerView>,
    cfg: DiscoverConfigView,
    i: int,
    j: int,
    v: VersionView,
)
    requires
        0 <= i < ns.len(),
        0 <= j < ns[i].edges.len(),
        is_behind(ns[i].edges[j], answers, cfg, v),
    ensures
        sort::sorted::<Candidate>(all_candidates(ns, answers, cfg)).contains(
            CandidateView {
                repo: ns[i].repo,
                module: ns[i].edges[j].module,
                manifest_path: ns[i].edges[j].manifest_path,
                kind: ns[i].edges[j].kind,
                current: ns[i].edges[j].current,
                latest: v.text(),
                decision: DecisionView::NeedsBump,
            },
        ),
{
    broadcast use vstd::seq_lib::group_to_multiset_ensures;

    let all = all_candidates(ns, answers, cfg);
    let pick = judging(answers, cfg);
    let x = (ns[i].repo, ns[i].edges[j]);
    candidates_are_the_edges_behind(x.0, x.1, answers, cfg, v);
    let c = candidate_for(x.0, x.1, answers, cfg)->0;
    declared_is_every_edge(ns, x);
    let k = choose|k: int| 0 <= k < declared(ns).len() && declared(ns)[k] == x;
    assert(pick(declared(ns)[k]) == Some(c));
    all_selection(ns, answers, cfg);
    select::selection_holds(declared(ns), all, pick, c);
    sort::sorted_is_in_order::<Candidate>(all);
    assert(all.to_multiset().contains(c));
    assert(sort::sorted::<Candidate>(all).to_multiset().contains(c));
}

/// And nothing else is: what is in the report is behind.
pub proof fn reported_is_behind(
    ns: Seq<NodeView>,
    answers: Seq<AnswerView>,
    cfg: DiscoverConfigView,
    c: CandidateView,
)
    requires
        sort::sorted::<Candidate>(all_candidates(ns, answers, cfg)).contains(c),
    ensures
        exists|i: int, j: int, v: VersionView|
            #![trigger ns[i].edges[j], v.text()]
            0 <= i < ns.len() && 0 <= j < ns[i].edges.len() && is_behind(
                ns[i].edges[j],
                answers,
                cfg,
                v,
            ) && c == (CandidateView {
                repo: ns[i].repo,
                module: ns[i].edges[j].module,
                manifest_path: ns[i].edges[j].manifest_path,
                kind: ns[i].edges[j].kind,
                current: ns[i].edges[j].current,
                latest: v.text(),
                decision: DecisionView::NeedsBump,
            }),
{
    broadcast use vstd::seq_lib::group_to_multiset_ensures;

    let all = all_candidates(ns, answers, cfg);
    let pick = judging(answers, cfg);
    sort::sorted_is_in_order::<Candidate>(all);
    assert(sort::sorted::<Candidate>(all).to_multiset().contains(c));
    assert(all.contains(c));
    all_selection(ns, answers, cfg);
    select::selection_holds(declared(ns), all, pick, c);
    let k = choose|k: int| 0 <= k < declared(ns).len() && pick(#[trigger] declared(ns)[k]) == Some(
        c,
    );
    let x = declared(ns)[k];
    assert(declared(ns).contains(x));
    declared_is_every_edge(ns, x);
    let (i, j) = choose|i: int, j: int|
        #![trigger ns[i].edges[j]]
        0 <= i < ns.len() && 0 <= j < ns[i].edges.len() && x == (ns[i].repo, ns[i].edges[j]);
    assert(candidate_for(x.0, x.1, answers, cfg) == Some(c));
    let v = latest_of(answers, x.1.kind, x.1.module)->0;
    answered_is_latest(answers, x.1.kind, x.1.module, v);
    first_party_is_prefixed(cfg, x.1.module);
    assert(is_behind(ns[i].edges[j], answers, cfg, v));
    assert(c.latest == v.text());
}

/// Is the dependency on `module` left to the cascade: does a node publish it, or is
/// it first-party where the configuration does not ask for those?
pub open spec fn is_left_to_the_cascade(
    ns: Seq<NodeView>,
    cfg: DiscoverConfigView,
    module: Seq<char>,
) -> bool {
    (exists|i: int| 0 <= i < ns.len() && (#[trigger] ns[i]).published == Some(module))
        || is_first_party(cfg, module) && !cfg.include_internal && !cfg.only_internal
}

proof fn published_is_listed(ns: Seq<NodeView>, m: Seq<char>)
    ensures
        published_modules(ns).contains(m) <==> exists|i: int|
            0 <= i < ns.len() && (#[trigger] ns[i]).published == Some(m),
    decreases ns.len(),
{
    if ns.len() > 0 {
        let init = ns.drop_last();
        let a = published_modules(init);
        let all = published_modules(ns);
        published_is_listed(init, m);
        if all.contains(m) {
            let k = choose|k: int| 0 <= k < all.len() && all[k] == m;
            if k < a.len() {
                assert(a[k] == m);
                assert(a.contains(m));
                let i = choose|i: int| 0 <= i < init.len() && (#[trigger] init[i]).published == Some(m);
                assert(ns[i].published == Some(m));
            } else {
                assert(ns[ns.len() - 1].published == Some(m));
            }
        }
        if exists|i: int| 0 <= i < ns.len() && (#[trigger] ns[i]).published == Some(m) {
            let i = choose|i: int| 0 <= i < ns.len() && (#[trigger] ns[i]).published == Some(m);
            published_lists(ns, i, m);
        }
    }
}

/// What is looked up: the dependencies of the nodes that are neither opaque nor left
/// to the cascade, that the report asks for, and that a datasource knows the kind
/// of; those and no other.
pub proof fn looked_up_is_what_is_external(
    ns: Seq<NodeView>,
    kinds: Seq<EdgeKind>,
    cfg: DiscoverConfigView,
    kind: EdgeKind,
    module: Seq<char>,
)
    ensures
        wanted_lookup(ns, kinds, cfg, kind, module) <==> {
            &&& kinds.contains(kind)
            &&& !is_left_to_the_cascade(ns, cfg, module)
            &&& cfg.only_internal ==> is_first_party(cfg, module)
            &&& exists|i: int, j: int|
                #![trigger ns[i].edges[j]]
                0 <= i < ns.len() && 0 <= j < ns[i].edges.len() && ns[i].edges[j].kind == kind
                    && ns[i].edges[j].module == module && ns[i].edges[j].current !is Other
        },
{
    first_party_is_prefixed(cfg, module);
    published_is_listed(ns, module);
    if wanted_lookup(ns, kinds, cfg, kind, module) {
        let (i, j) = choose|i: int, j: int|
            #![trigger ns[i].edges[j]]
            0 <= i < ns.len() && 0 <= j < ns[i].edges.len() && wanted(
                ns,
                kinds,
                cfg,
                ns[i].edges[j],
            ) && ns[i].edges[j].kind == kind && ns[i].edges[j].module == module;
        assert(ns[i].edges[j].current !is Other);
    }
    if exists|i: int, j: int|
        #![trigger ns[i].edges[j]]
        0 <= i < ns.len() && 0 <= j < ns[i].edges.len() && ns[i].edges[j].kind == kind
            && ns[i].edges[j].module == module && ns[i].edges[j].current !is Other {
        let (i, j) = choose|i: int, j: int|
            #![trigger ns[i].edges[j]]
            0 <= i < ns.len() && 0 <= j < ns[i].edges.len() && ns[i].edges[j].kind == kind
                && ns[i].edges[j].module == module && ns[i].edges[j].current !is Other;
        assert(ns[i].edges[j].module == module);
    }
}

/// A scan reports a dependency just where it is external, some datasource knows its
/// kind, and the answer to its lookup puts it behind.
pub proof fn scan_reports_external_edges(
    ns: Seq<NodeView>,
    kinds: Seq<EdgeKind>,
    cfg: DiscoverConfigView,
    answers: Seq<AnswerView>,
    i: int,
    j: int,
)
    requires
        answers_lookups(ns, kinds, cfg, answers),
        0 <= i < ns.len(),
        0 <= j < ns[i].edges.len(),
    ensures
        ({
            let e = ns[i].edges[j];
            &&& e.current is Other || is_left_to_the_cascade(ns, cfg, e.module) || !kinds.contains(
                e.kind,
            ) || cfg.only_internal && !is_first_party(cfg, e.module) ==> candidate_for(
                ns[i].repo,
                e,
                answers,
                cfg,
            ) is None
            &&& e.current !is Other && !is_left_to_the_cascade(ns, cfg, e.module)
                && kinds.contains(e.kind) && (cfg.only_internal ==> is_first_party(cfg, e.module))
                ==> exists|k: int|
                0 <= k < answers.len() && (#[trigger] answers[k]).kind == e.kind
                    && answers[k].module == e.module && (candidate_for(
                    ns[i].repo,
                    e,
                    answers,
                    cfg,
                ) is Some <==> (answers[k].latest matches Some(v) && edge::decision(
                    e.current,
                    v,
                    cfg.force,
                ) is NeedsBump))
        }),
{
    let e = ns[i].edges[j];
    looked_up_is_what_is_external(ns, kinds, cfg, e.kind, e.module);
    first_party_is_prefixed(cfg, e.module);
    published_is_listed(ns, e.module);
    if is_left_to_the_cascade(ns, cfg, e.module) {
        internal_is_never_a_candidate(ns, kinds, cfg, answers, ns[i].repo, e);
    }
    if !kinds.contains(e.kind) {
        no_candidate_without_datasource(ns, kinds, cfg, answers, ns[i].repo, e);
    }
    if e.current !is Other && !is_left_to_the_cascade(ns, cfg, e.module) && kinds.contains(e.kind)
        && (cfg.only_internal ==> is_first_party(cfg, e.module)) {
        assert(wanted_lookup(ns, kinds, cfg, e.kind, e.module));
        let k = choose|k: int|
            0 <= k < answers.len() && (#[trigger] answers[k]).kind == e.kind && answers[k].module
                == e.module;
        latest_is_the_answer(answers, k);
        assert(candidate_for(ns[i].repo, e, answers, cfg) is Some <==> (
        answers[k].latest matches Some(v) && edge::decision(e.current, v, cfg.force) is NeedsBump));
    }
}

/// What a registry says counts where it is a stable version, and not otherwise.
pub proof fn only_stable_versions_count(info: VersionInfoView, v: VersionView)
    ensures
        usable_version(Some(info)) == Some(v) <==> version::version_of(text::trimmed(info.version))
            == Some(v) && v.pre.len() == 0,
        usable_version(None) is None,
{
}

/// Of several datasources of one kind the one listed first is asked: there is only one
/// such, it is there where there is any of the kind, and one more behind it changes
/// nothing.
pub proof fn first_datasource_is_asked(kinds: Seq<EdgeKind>, kind: EdgeKind, j: int, k: int)
    ensures
        first_of_kind(kinds, kind, k) && 0 <= j < kinds.len() && kinds[j] == kind ==> k <= j,
        first_of_kind(kinds, kind, k) ==> 0 <= k < kinds.len() && kinds[k] == kind
            && first_of_kind(kinds.push(kind), kind, k),
        kinds.contains(kind) ==> exists|i: int| #[trigger] first_of_kind(kinds, kind, i),
    decreases kinds.len(),
{
    if kinds.contains(kind) {
        let init = kinds.drop_last();
        if init.contains(kind) {
            first_datasource_is_asked(init, kind, j, k);
            let i = choose|i: int| #[trigger] first_of_kind(init, kind, i);
            assert forall|m: int| 0 <= m < i implies kinds[m] != kind by {
                assert(init[m] == kinds[m]);
            }
            assert(kinds[i] == init[i]);
            assert(first_of_kind(kinds, kind, i));
        } else {
            let i = kinds.len() - 1;
            let at = choose|at: int| 0 <= at < kinds.len() && kinds[at] == kind;
            if at < i {
                assert(init[at] == kind);
                assert(init.contains(kind));
            }
            assert forall|m: int| 0 <= m < i implies kinds[m] != kind by {
                if kinds[m] == kind {
                    assert(init[m] == kind);
                    assert(init.contains(kind));
                }
            }
            assert(first_of_kind(kinds, kind, i));
        }
    }
    if first_of_kind(kinds, kind, k) {
        let more = kinds.push(kind);
        assert forall|m: int| 0 <= m < k implies more[m] != kind by {
            assert(more[m] == kinds[m]);
        }
    }
}

/// A reply that errs comes to no version, as one that knows none does.
pub proof fn errors_say_nothing(why: String, info: Option<VersionInfo>)
    ensures
        usable_version(said(Err(why))) is None,
        said(Ok(info)) == info.deep_view(),
{
}

} // verus!
