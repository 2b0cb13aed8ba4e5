//! Graph providers: parse a repo's manifest into the name it publishes + its
//! dependency edges, and rewrite one edge's version. An ordered [`ProviderChain`]
//! is tried per repo until one applies (Bazel `MODULE.bazel`, then npm
//! `package.json`, …). All methods are pure (text in, edges/text out) so the
//! graph engine is testable without any I/O.
//!
//! The bump uses one fixed pattern that matches every dependency line and
//! rewrites only the one whose name matches — so there are no per-module
//! dynamic patterns.
use vstd::prelude::*;
use vstd::string::*;

use crate::document::{
    self, find_member, read_members, read_table_member, read_text, read_text_member, read_toml,
    Member, MemberView,
};
use crate::edge::{self, ConstraintView, DepEdge, DepEdgeView, EdgeKind, VersionConstraint};
use crate::pattern::{
    self, captures, group_text, rewrite, unquote, Groups, Layout, LayoutView, Span,
};
use crate::text::{self, chars_of, contains_text, same_text, starts_with, text_of, trim_front};

verus! {

/// Parse + rewrite one manifest kind.
pub trait GraphProvider: Send + Sync {
    /// The manifest filename this provider reads.
    spec fn manifest(&self) -> Seq<char>;

    /// The edge kind this provider produces.
    spec fn edge_kind(&self) -> EdgeKind;

    /// The name that a manifest declares its repo to publish.
    spec fn name_in(&self, text: Seq<char>) -> Option<Seq<char>>;

    /// The version that a manifest declares its repo to publish.
    spec fn version_in(&self, text: Seq<char>) -> Option<Seq<char>>;

    /// The dependency edges of a manifest; `None` where it is not this kind.
    spec fn edges_in(&self, text: Seq<char>) -> Option<Seq<DepEdgeView>>;

    /// Does the manifest hold an entry for `module` that can be rewritten?
    spec fn has_entry(&self, text: Seq<char>, module: Seq<char>) -> bool;

    /// The manifest with the version in each entry for `module` replaced.
    spec fn bumped(&self, text: Seq<char>, module: Seq<char>, target: Seq<char>) -> Seq<char>;

    /// The manifest filename this provider reads (e.g. `"MODULE.bazel"`).
    fn manifest_name(&self) -> (r: &'static str)
        ensures
            r@ == self.manifest(),
    ;

    /// The edge kind this provider produces.
    fn kind(&self) -> (r: EdgeKind)
        ensures
            r == self.edge_kind(),
    ;

    /// The name this repo publishes, if the manifest declares one.
    fn published_name(&self, text: &str) -> (r: Option<String>)
        ensures
            r.deep_view() == self.name_in(text@),
    ;

    /// The version this repo currently publishes, if the manifest declares one.
    /// Used as the publish-detection baseline + to resolve a downstream's target
    /// once an upstream releases.
    fn published_version(&self, text: &str) -> (r: Option<String>)
        ensures
            r.deep_view() == self.version_in(text@),
    ;

    /// Parse all dependency edges. `None` = the manifest isn't this kind
    /// (so the chain falls through to the next provider).
    fn parse_edges(&self, text: &str) -> (r: Option<Vec<DepEdge>>)
        ensures
            r.deep_view() == self.edges_in(text@),
    ;

    /// Rewrite one dependency's version → `target`. Returns `(new_text, changed)`.
    /// A text that is not changed is returned as it is.
    fn bump(&self, text: &str, module: &str, target: &str) -> (r: (String, bool))
        ensures
            r.0@ == self.bumped(text@, module@, target@),
            r.1 == self.has_entry(text@, module@),
            !r.1 ==> r.0@ == text@,
    ;
}

// ─── matches ────────────────────────────────────────────────────────────

/// The matches of `pattern` in `text`.
pub open spec fn found(pattern: Seq<char>, text: Seq<char>) -> Seq<Seq<Option<Span>>> {
    match pattern::regex_captures(pattern, text) {
        Some(ms) => ms,
        None => seq![],
    }
}

/// The matches of `pattern` in `text`.
fn find(pattern: &str, text: &str) -> (r: Vec<Groups>)
    ensures
        pattern::match_list(r@) == found(pattern@, text@),
        pattern::are_matches(text@, pattern::match_list(r@)),
{
    match captures(pattern, text) {
        Some(ms) => ms,
        None => {
            let none: Vec<Groups> = Vec::new();
            assert(pattern::match_list(none@) =~= seq![]);
            none
        },
    }
}

/// The text of the group `g` of the first match.
pub open spec fn first_group(t: Seq<char>, ms: Seq<Seq<Option<Span>>>, g: int) -> Option<Seq<char>> {
    if ms.len() > 0 {
        Some(pattern::group(t, ms[0], g))
    } else {
        None
    }
}

/// The text of the group `g` of the first match.
pub fn first_group_text(text: &str, matches: &Vec<Groups>, g: usize) -> (r: Option<String>)
    requires
        pattern::are_matches(text@, pattern::match_list(matches@)),
    ensures
        r.deep_view() == first_group(text@, pattern::match_list(matches@), g as int),
{
    if matches.len() > 0 {
        assert(pattern::is_match(text@, pattern::match_list(matches@)[0]));
        Some(group_text(text, &matches[0], g))
    } else {
        None
    }
}

/// Rewrites the entries for `module` that `pattern` finds.
fn rewrite_found(pattern: &str, text: &str, l: &Layout, module: &str, target: &str) -> (r: (
    String,
    bool,
))
    ensures
        r.0@ == pattern::rewritten(
            text@,
            found(pattern@, text@),
            l.deep_view(),
            module@,
            target@,
        ),
        r.1 == pattern::any_entry(text@, found(pattern@, text@), l.deep_view(), module@),
        !r.1 ==> r.0@ == text@,
{
    let ms = find(pattern, text);
    proof {
        let list = pattern::match_list(ms@);
        if !pattern::any_entry(text@, list, l.deep_view(), module@) {
            pattern::no_entry_is_untouched(text@, list, l.deep_view(), module@, target@);
        }
    }
    rewrite(text, &ms, l, module, target)
}

// ─── Bazel ──────────────────────────────────────────────────────────────

/// One `bazel_dep(…)` declaration — group 1 runs through the version's opening
/// quote, groups 2 and 3 are the name and the version, group 4 is the closing
/// quote. Tolerates multi-line declarations (`\s*` spans newlines).
pub const BAZEL_DEP: &'static str =
    r#"(?P<head>bazel_dep\(\s*name\s*=\s*"(?P<name>[^"]+)"\s*,\s*version\s*=\s*")(?P<ver>[^"]+)(?P<tail>")"#;

/// `module(name = "X")` — the published name is group 1.
pub const BAZEL_MODULE_NAME: &'static str = r#"module\(\s*name\s*=\s*"(?P<name>[^"]+)""#;

/// `module(… version = "Y")` — the published version is group 1.
pub const BAZEL_MODULE_VERSION: &'static str = r#"module\([^)]*?version\s*=\s*"(?P<ver>[^"]+)""#;

/// Reads `bazel_dep(name = "X", version = "Y")` edges + the `module(name=…)`
/// this repo publishes.
#[derive(Debug, Clone, Copy)]
pub struct BazelDepProvider {}

/// How [`BAZEL_DEP`] (and [`CARGO_DEP`]) names its parts.
pub open spec fn plain_layout() -> LayoutView {
    LayoutView { name: 2, quoted: false, before: seq![1], behind: seq![4] }
}

/// How [`BAZEL_DEP`] (and [`CARGO_DEP`]) names its parts.
fn plain_layout_of() -> (r: Layout)
    ensures
        r.deep_view() == plain_layout(),
{
    let l = Layout { name: 2, quoted: false, before: vec![1], behind: vec![4] };
    assert(l.deep_view().before =~= seq![1]);
    assert(l.deep_view().behind =~= seq![4]);
    l
}

/// The edge that a `bazel_dep(…)` declaration is.
pub open spec fn bazel_edge(t: Seq<char>, m: Seq<Option<Span>>) -> DepEdgeView {
    DepEdgeView {
        module: pattern::group(t, m, 2),
        current: edge::exact_constraint(pattern::group(t, m, 3)),
        manifest_path: "MODULE.bazel"@,
        kind: EdgeKind::BazelDep,
    }
}

/// The edges that the given `bazel_dep(…)` declarations are.
pub fn bazel_edges(text: &str, matches: &Vec<Groups>) -> (r: Vec<DepEdge>)
    requires
        pattern::are_matches(text@, pattern::match_list(matches@)),
    ensures
        r.deep_view() == pattern::match_list(matches@).map_values(
            |m: Seq<Option<Span>>| bazel_edge(text@, m),
        ),
{
    let ghost ms = pattern::match_list(matches@);
    let mut out: Vec<DepEdge> = Vec::new();
    let mut i: usize = 0;
    while i < matches.len()
        invariant
            ms == pattern::match_list(matches@),
            pattern::are_matches(text@, ms),
            i <= matches@.len(),
            out@.len() == i,
            forall|j: int|
                0 <= j < i ==> (#[trigger] out@[j]).deep_view() == bazel_edge(text@, ms[j]),
        decreases matches@.len() - i,
    {
        assert(pattern::is_match(text@, ms[i as int]));
        let ver = group_text(text, &matches[i], 3);
        out.push(
            DepEdge {
                module: group_text(text, &matches[i], 2),
                current: VersionConstraint::parse_exact(ver.as_str()),
                manifest_path: "MODULE.bazel".to_owned(),
                kind: EdgeKind::BazelDep,
            },
        );
        i = i + 1;
    }
    assert(out.deep_view() =~= ms.map_values(|m: Seq<Option<Span>>| bazel_edge(text@, m)));
    out
}

impl BazelDepProvider {
    pub fn new() -> (r: Self)
        ensures
            r == (BazelDepProvider {  }),
    {
        BazelDepProvider {  }
    }
}

impl Default for BazelDepProvider {
    fn default() -> (r: Self)
        ensures
            r == (BazelDepProvider {  }),
    {
        Self::new()
    }
}

impl GraphProvider for BazelDepProvider {
    open spec fn manifest(&self) -> Seq<char> {
        "MODULE.bazel"@
    }

    open spec fn edge_kind(&self) -> EdgeKind {
        EdgeKind::BazelDep
    }

    open spec fn name_in(&self, text: Seq<char>) -> Option<Seq<char>> {
        first_group(text, found(BAZEL_MODULE_NAME@, text), 1)
    }

    open spec fn version_in(&self, text: Seq<char>) -> Option<Seq<char>> {
        first_group(text, found(BAZEL_MODULE_VERSION@, text), 1)
    }

    open spec fn edges_in(&self, text: Seq<char>) -> Option<Seq<DepEdgeView>> {
        if text::occurs_in(text, "bazel_dep("@) || text::occurs_in(text, "module("@) {
            Some(
                found(BAZEL_DEP@, text).map_values(|m: Seq<Option<Span>>| bazel_edge(text, m)),
            )
        } else {
            None
        }
    }

    open spec fn has_entry(&self, text: Seq<char>, module: Seq<char>) -> bool {
        pattern::any_entry(text, found(BAZEL_DEP@, text), plain_layout(), module)
    }

    open spec fn bumped(&self, text: Seq<char>, module: Seq<char>, target: Seq<char>) -> Seq<char> {
        pattern::rewritten(text, found(BAZEL_DEP@, text), plain_layout(), module, target)
    }

    fn manifest_name(&self) -> (r: &'static str) {
        "MODULE.bazel"
    }

    fn kind(&self) -> (r: EdgeKind) {
        EdgeKind::BazelDep
    }

    fn published_name(&self, text: &str) -> (r: Option<String>) {
        let ms = find(BAZEL_MODULE_NAME, text);
        first_group_text(text, &ms, 1)
    }

    fn published_version(&self, text: &str) -> (r: Option<String>) {
        let ms = find(BAZEL_MODULE_VERSION, text);
        first_group_text(text, &ms, 1)
    }

    fn parse_edges(&self, text: &str) -> (r: Option<Vec<DepEdge>>) {
        // Only treat this as a MODULE.bazel if it actually has bazel module
        // syntax; otherwise return None so the chain falls through.
        if !contains_text(text, "bazel_dep(") && !contains_text(text, "module(") {
            return None;
        }
        let ms = find(BAZEL_DEP, text);
        Some(bazel_edges(text, &ms))
    }

    fn bump(&self, text: &str, module: &str, target: &str) -> (r: (String, bool)) {
        let l = plain_layout_of();
        rewrite_found(BAZEL_DEP, text, &l, module, target)
    }
}

// ─── npm ────────────────────────────────────────────────────────────────

/// One `"<name>": "<op><version>"` dependency entry — group 1 runs through the
/// value's opening quote, group 2 is the name, group 3 any caret/tilde, group 4
/// the version (anchored on a leading digit so non-semver specs are left alone),
/// group 5 the closing quote.
pub const NPM_DEP: &'static str =
    r#"(?P<head>"(?P<name>[^"]+)"\s*:\s*")(?P<op>[\^~]?)(?P<ver>[0-9][^"]*)(?P<tail>")"#;

/// Reads `dependencies` / `devDependencies` / `peerDependencies` edges + the
/// `"name"` this package.json publishes.
#[derive(Debug, Clone, Copy)]
pub struct NpmProvider {}

/// How [`NPM_DEP`] names its parts.
pub open spec fn npm_layout() -> LayoutView {
    LayoutView { name: 2, quoted: false, before: seq![1, 3], behind: seq![5] }
}

/// How [`NPM_DEP`] names its parts.
fn npm_layout_of() -> (r: Layout)
    ensures
        r.deep_view() == npm_layout(),
{
    let l = Layout { name: 2, quoted: false, before: vec![1, 3], behind: vec![5] };
    assert(l.deep_view().before =~= seq![1, 3]);
    assert(l.deep_view().behind =~= seq![5]);
    l
}

/// The edge that a `package.json` entry is.
pub open spec fn npm_edge(name: Seq<char>, spec: Seq<char>) -> DepEdgeView {
    DepEdgeView {
        module: name,
        current: edge::npm_constraint(spec),
        manifest_path: "package.json"@,
        kind: EdgeKind::Npm,
    }
}

/// The edges that the entries of one section are; an entry whose value is not a
/// text is none.
pub open spec fn npm_edges_of(entries: Seq<(Seq<char>, Option<Seq<char>>)>) -> Seq<DepEdgeView>
    decreases entries.len(),
{
    if entries.len() == 0 {
        seq![]
    } else {
        let init = npm_edges_of(entries.drop_last());
        match entries.last().1 {
            Some(spec) => init.push(npm_edge(entries.last().0, spec)),
            None => init,
        }
    }
}

/// The members of a table, each with the text that its value is, if it is one.
pub open spec fn text_entries(m: Seq<(Seq<char>, Seq<char>)>) -> Seq<(
    Seq<char>,
    Option<Seq<char>>,
)> {
    m.map_values(|e: (Seq<char>, Seq<char>)| (e.0, document::text_in(e.1)))
}

/// The edges of one section of a `package.json`.
pub open spec fn npm_section(m: Seq<(Seq<char>, Seq<char>)>, section: Seq<char>) -> Seq<
    DepEdgeView,
> {
    match document::table_member(m, section) {
        Some(entries) => npm_edges_of(text_entries(entries)),
        None => seq![],
    }
}

/// The edges that the entries of one section are.
pub fn npm_edges(entries: &Vec<(String, Option<String>)>) -> (r: Vec<DepEdge>)
    ensures
        r.deep_view() == npm_edges_of(entries.deep_view()),
{
    let ghost ev = entries.deep_view();
    let mut out: Vec<DepEdge> = Vec::new();
    let mut i: usize = 0;
    assert(out.deep_view() =~= npm_edges_of(ev.take(0)));
    while i < entries.len()
        invariant
            ev == entries.deep_view(),
            i <= entries@.len() == ev.len(),
            out.deep_view() == npm_edges_of(ev.take(i as int)),
        decreases entries@.len() - i,
    {
        let ghost before = out.deep_view();
        assert(ev.take(i + 1).drop_last() =~= ev.take(i as int));
        assert(ev.take(i + 1).last() == entries@[i as int].deep_view());
        if let Some(spec) = &entries[i].1 {
            let e = DepEdge {
                module: entries[i].0.clone(),
                current: VersionConstraint::parse_npm(spec.as_str()),
                manifest_path: "package.json".to_owned(),
                kind: EdgeKind::Npm,
            };
            out.push(e);
            assert(out.deep_view() =~= before.push(e.deep_view()));
        }
        i = i + 1;
    }
    assert(ev.take(ev.len() as int) =~= ev);
    out
}

/// Reads the members of a table whose values are texts.
fn read_text_entries(m: &Vec<(String, String)>) -> (r: Vec<(String, Option<String>)>)
    ensures
        r.deep_view() == text_entries(m.deep_view()),
{
    let mut out: Vec<(String, Option<String>)> = Vec::new();
    let mut i: usize = 0;
    while i < m.len()
        invariant
            i <= m@.len(),
            out@.len() == i,
            forall|j: int|
                0 <= j < i ==> (#[trigger] out@[j]).deep_view() == (
                    m.deep_view()[j].0,
                    document::text_in(m.deep_view()[j].1),
                ),
        decreases m@.len() - i,
    {
        let value = read_text(m[i].1.as_str());
        out.push((m[i].0.clone(), value));
        i = i + 1;
    }
    assert(out.deep_view() =~= text_entries(m.deep_view()));
    out
}

/// Appends the edges of one section of a `package.json`.
fn append_npm_section(out: &mut Vec<DepEdge>, m: &Vec<(String, String)>, section: &str)
    ensures
        final(out).deep_view() == old(out).deep_view() + npm_section(m.deep_view(), section@),
{
    if let Some(entries) = read_table_member(m, section) {
        let entries = read_text_entries(&entries);
        let mut edges = npm_edges(&entries);
        out.append(&mut edges);
    }
    assert(out.deep_view() =~= old(out).deep_view() + npm_section(m.deep_view(), section@));
}

/// The edges of a `package.json` with the given members.
pub open spec fn npm_sections(m: Seq<(Seq<char>, Seq<char>)>) -> Seq<DepEdgeView> {
    npm_section(m, "dependencies"@) + npm_section(m, "devDependencies"@) + npm_section(
        m,
        "peerDependencies"@,
    )
}

impl NpmProvider {
    pub fn new() -> (r: Self)
        ensures
            r == (NpmProvider {  }),
    {
        NpmProvider {  }
    }
}

impl Default for NpmProvider {
    fn default() -> (r: Self)
        ensures
            r == (NpmProvider {  }),
    {
        Self::new()
    }
}

impl GraphProvider for NpmProvider {
    open spec fn manifest(&self) -> Seq<char> {
        "package.json"@
    }

    open spec fn edge_kind(&self) -> EdgeKind {
        EdgeKind::Npm
    }

    open spec fn name_in(&self, text: Seq<char>) -> Option<Seq<char>> {
        match document::members_in(text) {
            Some(m) => document::text_member(m, "name"@),
            None => None,
        }
    }

    open spec fn version_in(&self, text: Seq<char>) -> Option<Seq<char>> {
        match document::members_in(text) {
            Some(m) => document::text_member(m, "version"@),
            None => None,
        }
    }

    open spec fn edges_in(&self, text: Seq<char>) -> Option<Seq<DepEdgeView>> {
        match document::members_in(text) {
            Some(m) => Some(npm_sections(m)),
            None => None,
        }
    }

    open spec fn has_entry(&self, text: Seq<char>, module: Seq<char>) -> bool {
        pattern::any_entry(text, found(NPM_DEP@, text), npm_layout(), module)
    }

    open spec fn bumped(&self, text: Seq<char>, module: Seq<char>, target: Seq<char>) -> Seq<char> {
        pattern::rewritten(text, found(NPM_DEP@, text), npm_layout(), module, target)
    }

    fn manifest_name(&self) -> (r: &'static str) {
        "package.json"
    }

    fn kind(&self) -> (r: EdgeKind) {
        EdgeKind::Npm
    }

    fn published_name(&self, text: &str) -> (r: Option<String>) {
        match read_members(text) {
            Some(m) => read_text_member(&m, "name"),
            None => None,
        }
    }

    fn published_version(&self, text: &str) -> (r: Option<String>) {
        match read_members(text) {
            Some(m) => read_text_member(&m, "version"),
            None => None,
        }
    }

    fn parse_edges(&self, text: &str) -> (r: Option<Vec<DepEdge>>) {
        let m = match read_members(text) {
            Some(m) => m,
            None => {
                return None;
            },
        };
        let mut edges: Vec<DepEdge> = Vec::new();
        append_npm_section(&mut edges, &m, "dependencies");
        append_npm_section(&mut edges, &m, "devDependencies");
        append_npm_section(&mut edges, &m, "peerDependencies");
        assert(edges.deep_view() =~= npm_sections(m.deep_view()));
        Some(edges)
    }

    fn bump(&self, text: &str, module: &str, target: &str) -> (r: (String, bool)) {
        // Rewrite only the entry whose key matches `module`, keeping any
        // caret/tilde operator. Non-semver specs never match (the version group
        // is anchored on a leading digit).
        let l = npm_layout_of();
        rewrite_found(NPM_DEP, text, &l, module, target)
    }
}

// ─── Cargo ──────────────────────────────────────────────────────────────

/// `name = "ver"` — the string-form dependency: group 1 runs through the opening
/// quote, groups 2 and 3 are the name and the version (anchored on a leading
/// digit so non-version keys and the inline-table form are left alone), group 4
/// is the closing quote.
pub const CARGO_DEP: &'static str =
    r#"(?m)^(?P<head>\s*(?P<name>[A-Za-z0-9_-]+)\s*=\s*")(?P<ver>[0-9][^"]*)(?P<tail>")"#;

/// Reads `[dependencies]` / `[dev-dependencies]` / `[build-dependencies]` +
/// `[workspace.dependencies]` from `Cargo.toml`, and the `[package]` name +
/// version this crate publishes. Path / git / `workspace = true` deps are
/// skipped (no registry version to track).
#[derive(Debug, Clone, Copy)]
pub struct CargoProvider {}

/// A `Cargo.toml` dependency value.
#[derive(Debug)]
pub enum CargoSpec {
    /// `dep = "1.2"`.
    Text(String),
    /// `dep = { … }`.
    Table {
        /// Does it hold `workspace = true`?
        workspace: bool,
        /// Does it hold a `path` or a `git`?
        elsewhere: bool,
        /// The `version`, if it is a text.
        version: Option<String>,
    },
    Other,
}

/// What a [`CargoSpec`] says.
pub enum CargoSpecView {
    Text(Seq<char>),
    Table { workspace: bool, elsewhere: bool, version: Option<Seq<char>> },
    Other,
}

impl DeepView for CargoSpec {
    type V = CargoSpecView;

    open spec fn deep_view(&self) -> CargoSpecView {
        match self {
            CargoSpec::Text(s) => CargoSpecView::Text(s@),
            CargoSpec::Table { workspace, elsewhere, version } => CargoSpecView::Table {
                workspace: *workspace,
                elsewhere: *elsewhere,
                version: version.deep_view(),
            },
            CargoSpec::Other => CargoSpecView::Other,
        }
    }
}

/// The text that the member `k` of a TOML table is, if it is one.
pub open spec fn toml_text(m: Seq<(Seq<char>, MemberView)>, k: Seq<char>) -> Option<Seq<char>> {
    match document::lookup(m, k) {
        Some(MemberView::Text(s)) => Some(s),
        _ => None,
    }
}

/// The dependency value that a table with the given members is.
pub open spec fn cargo_table(m: Seq<(Seq<char>, MemberView)>) -> CargoSpecView {
    CargoSpecView::Table {
        workspace: document::lookup(m, "workspace"@) == Some(MemberView::Flag(true)),
        elsewhere: document::lookup(m, "path"@) is Some || document::lookup(m, "git"@) is Some,
        version: toml_text(m, "version"@),
    }
}

/// The dependency value that the member `v`, found by the keys `path`, is.
pub open spec fn cargo_spec_at(
    text: Seq<char>,
    path: Seq<Seq<char>>,
    v: MemberView,
) -> CargoSpecView {
    match v {
        MemberView::Text(s) => CargoSpecView::Text(s),
        MemberView::Table => match document::toml_members(text, path) {
            Some(m) => cargo_table(m),
            None => CargoSpecView::Other,
        },
        _ => CargoSpecView::Other,
    }
}

/// The version constraint of a dependency value; `None` for path / git /
/// workspace deps, and where there is no version.
pub open spec fn cargo_dep_constraint(spec: CargoSpecView) -> Option<ConstraintView> {
    match spec {
        CargoSpecView::Text(s) => Some(edge::cargo_constraint(s)),
        CargoSpecView::Table { workspace, elsewhere, version } => if workspace || elsewhere {
            None
        } else {
            match version {
                Some(v) => Some(edge::cargo_constraint(v)),
                None => None,
            }
        },
        CargoSpecView::Other => None,
    }
}

/// The edges that the entries of one section are.
pub open spec fn cargo_edges_of(entries: Seq<(Seq<char>, CargoSpecView)>) -> Seq<DepEdgeView>
    decreases entries.len(),
{
    if entries.len() == 0 {
        seq![]
    } else {
        let init = cargo_edges_of(entries.drop_last());
        match cargo_dep_constraint(entries.last().1) {
            Some(current) => init.push(
                DepEdgeView {
                    module: entries.last().0,
                    current,
                    manifest_path: "Cargo.toml"@,
                    kind: EdgeKind::Cargo,
                },
            ),
            None => init,
        }
    }
}

/// The members of the table that the keys `path` lead to, each with the
/// dependency value that it is.
pub open spec fn cargo_entries(
    text: Seq<char>,
    path: Seq<Seq<char>>,
    m: Seq<(Seq<char>, MemberView)>,
) -> Seq<(Seq<char>, CargoSpecView)> {
    m.map_values(
        |e: (Seq<char>, MemberView)| (e.0, cargo_spec_at(text, path.push(e.0), e.1)),
    )
}

/// The edges of the section of a `Cargo.toml` that the keys `path` lead to.
pub open spec fn cargo_section(text: Seq<char>, path: Seq<Seq<char>>) -> Seq<DepEdgeView> {
    match document::toml_members(text, path) {
        Some(m) => cargo_edges_of(cargo_entries(text, path, m)),
        None => seq![],
    }
}

/// The edges of a `Cargo.toml`.
pub open spec fn cargo_sections(text: Seq<char>) -> Seq<DepEdgeView> {
    cargo_section(text, seq!["dependencies"@]) + cargo_section(text, seq!["dev-dependencies"@])
        + cargo_section(text, seq!["build-dependencies"@]) + cargo_section(
        text,
        seq!["workspace"@, "dependencies"@],
    )
}

/// The keys in `path` with `k` behind them.
fn key_path(path: &Vec<String>, k: &str) -> (r: Vec<String>)
    ensures
        r.deep_view() == path.deep_view().push(k@),
{
    let mut out: Vec<String> = Vec::new();
    let mut i: usize = 0;
    while i < path.len()
        invariant
            i <= path@.len(),
            out@.len() == i,
            forall|j: int| 0 <= j < i ==> (#[trigger] out@[j])@ == path@[j]@,
        decreases path@.len() - i,
    {
        out.push(path[i].clone());
        i = i + 1;
    }
    out.push(k.to_owned());
    assert(out.deep_view() =~= path.deep_view().push(k@));
    out
}

/// Reads the text that the member `k` of a TOML table is.
fn read_toml_text(m: &Vec<(String, Member)>, k: &str) -> (r: Option<String>)
    ensures
        r.deep_view() == toml_text(m.deep_view(), k@),
{
    match find_member(m, k) {
        Some(Member::Text(s)) => Some(s.clone()),
        _ => None,
    }
}

/// The dependency value that a table with the given members is.
pub fn cargo_table_spec(m: &Vec<(String, Member)>) -> (r: CargoSpec)
    ensures
        r.deep_view() == cargo_table(m.deep_view()),
{
    let workspace = match find_member(m, "workspace") {
        Some(Member::Flag(b)) => *b,
        _ => false,
    };
    let elsewhere = find_member(m, "path").is_some() || find_member(m, "git").is_some();
    CargoSpec::Table { workspace, elsewhere, version: read_toml_text(m, "version") }
}

/// Reads the dependency value that the member `v` of the table at `path` is.
fn read_cargo_spec(text: &str, path: &Vec<String>, name: &str, v: &Member) -> (r: CargoSpec)
    ensures
        r.deep_view() == cargo_spec_at(text@, path.deep_view().push(name@), v.deep_view()),
{
    match v {
        Member::Text(s) => CargoSpec::Text(s.clone()),
        Member::Table => {
            let path = key_path(path, name);
            match read_toml(text, &path) {
                Some(m) => cargo_table_spec(&m),
                None => CargoSpec::Other,
            }
        },
        _ => CargoSpec::Other,
    }
}

/// Reads the members of the table at `path` as dependency values.
fn read_cargo_entries(text: &str, path: &Vec<String>, m: &Vec<(String, Member)>) -> (r: Vec<
    (String, CargoSpec),
>)
    ensures
        r.deep_view() == cargo_entries(text@, path.deep_view(), m.deep_view()),
{
    let mut out: Vec<(String, CargoSpec)> = Vec::new();
    let mut i: usize = 0;
    while i < m.len()
        invariant
            i <= m@.len(),
            out@.len() == i,
            forall|j: int|
                0 <= j < i ==> (#[trigger] out@[j]).deep_view() == (
                    m.deep_view()[j].0,
                    cargo_spec_at(
                        text@,
                        path.deep_view().push(m.deep_view()[j].0),
                        m.deep_view()[j].1,
                    ),
                ),
        decreases m@.len() - i,
    {
        let spec = read_cargo_spec(text, path, m[i].0.as_str(), &m[i].1);
        out.push((m[i].0.clone(), spec));
        i = i + 1;
    }
    assert(out.deep_view() =~= cargo_entries(text@, path.deep_view(), m.deep_view()));
    out
}

/// The edges that the entries of one section are.
pub fn cargo_edges(entries: &Vec<(String, CargoSpec)>) -> (r: Vec<DepEdge>)
    ensures
        r.deep_view() == cargo_edges_of(entries.deep_view()),
{
    let ghost ev = entries.deep_view();
    let mut out: Vec<DepEdge> = Vec::new();
    let mut i: usize = 0;
    assert(out.deep_view() =~= cargo_edges_of(ev.take(0)));
    while i < entries.len()
        invariant
            ev == entries.deep_view(),
            i <= entries@.len() == ev.len(),
            out.deep_view() == cargo_edges_of(ev.take(i as int)),
        decreases entries@.len() - i,
    {
        let ghost before = out.deep_view();
        assert(ev.take(i + 1).drop_last() =~= ev.take(i as int));
        assert(ev.take(i + 1).last() == entries@[i as int].deep_view());
        if let Some(current) = CargoProvider::constraint(&entries[i].1) {
            let e = DepEdge {
                module: entries[i].0.clone(),
                current,
                manifest_path: "Cargo.toml".to_owned(),
                kind: EdgeKind::Cargo,
            };
            out.push(e);
            assert(out.deep_view() =~= before.push(e.deep_view()));
        }
        i = i + 1;
    }
    assert(ev.take(ev.len() as int) =~= ev);
    out
}

/// Appends the edges of the section of a `Cargo.toml` that `path` leads to.
fn append_cargo_section(out: &mut Vec<DepEdge>, text: &str, path: &Vec<String>)
    ensures
        final(out).deep_view() == old(out).deep_view() + cargo_section(text@, path.deep_view()),
{
    if let Some(m) = read_toml(text, path) {
        let entries = read_cargo_entries(text, path, &m);
        let mut edges = cargo_edges(&entries);
        out.append(&mut edges);
    }
    assert(out.deep_view() =~= old(out).deep_view() + cargo_section(text@, path.deep_view()));
}

/// The text `package.<k>` of a `Cargo.toml`.
pub open spec fn cargo_package_text(text: Seq<char>, k: Seq<char>) -> Option<Seq<char>> {
    match document::toml_members(text, seq!["package"@]) {
        Some(m) => toml_text(m, k),
        None => None,
    }
}

/// The keys of a path of one or two keys.
fn keys(first: &str, second: Option<&str>) -> (r: Vec<String>)
    ensures
        r.deep_view() == (match second {
            Some(k) => seq![first@, k@],
            None => seq![first@],
        }),
{
    let none: Vec<String> = Vec::new();
    assert(none.deep_view() =~= seq![]);
    let one = key_path(&none, first);
    assert(one.deep_view() =~= seq![first@]);
    match second {
        Some(k) => {
            let two = key_path(&one, k);
            assert(two.deep_view() =~= seq![first@, k@]);
            two
        },
        None => one,
    }
}

/// Reads the text `package.<k>` of a `Cargo.toml`.
fn read_package_text(text: &str, k: &str) -> (r: Option<String>)
    ensures
        r.deep_view() == cargo_package_text(text@, k@),
{
    match read_toml(text, &keys("package", None)) {
        Some(m) => read_toml_text(&m, k),
        None => None,
    }
}

impl CargoProvider {
    pub fn new() -> (r: Self)
        ensures
            r == (CargoProvider {  }),
    {
        CargoProvider {  }
    }

    /// The version constraint from a dependency value (string or inline table),
    /// or `None` for path / git / workspace deps.
    pub fn constraint(spec: &CargoSpec) -> (r: Option<VersionConstraint>)
        ensures
            r.deep_view() == cargo_dep_constraint(spec.deep_view()),
    {
        match spec {
            CargoSpec::Text(s) => Some(VersionConstraint::parse_cargo(s.as_str())),
            CargoSpec::Table { workspace, elsewhere, version } => {
                if *workspace || *elsewhere {
                    return None;
                }
                match version {
                    Some(v) => Some(VersionConstraint::parse_cargo(v.as_str())),
                    None => None,
                }
            },
            CargoSpec::Other => None,
        }
    }
}

impl Default for CargoProvider {
    fn default() -> (r: Self)
        ensures
            r == (CargoProvider {  }),
    {
        Self::new()
    }
}

impl GraphProvider for CargoProvider {
    open spec fn manifest(&self) -> Seq<char> {
        "Cargo.toml"@
    }

    open spec fn edge_kind(&self) -> EdgeKind {
        EdgeKind::Cargo
    }

    open spec fn name_in(&self, text: Seq<char>) -> Option<Seq<char>> {
        cargo_package_text(text, "name"@)
    }

    open spec fn version_in(&self, text: Seq<char>) -> Option<Seq<char>> {
        cargo_package_text(text, "version"@)
    }

    open spec fn edges_in(&self, text: Seq<char>) -> Option<Seq<DepEdgeView>> {
        match document::toml_members(text, seq![]) {
            Some(_) => Some(cargo_sections(text)),
            None => None,
        }
    }

    open spec fn has_entry(&self, text: Seq<char>, module: Seq<char>) -> bool {
        pattern::any_entry(text, found(CARGO_DEP@, text), plain_layout(), module)
    }

    open spec fn bumped(&self, text: Seq<char>, module: Seq<char>, target: Seq<char>) -> Seq<char> {
        pattern::rewritten(text, found(CARGO_DEP@, text), plain_layout(), module, target)
    }

    fn manifest_name(&self) -> (r: &'static str) {
        "Cargo.toml"
    }

    fn kind(&self) -> (r: EdgeKind) {
        EdgeKind::Cargo
    }

    fn published_name(&self, text: &str) -> (r: Option<String>) {
        read_package_text(text, "name")
    }

    fn published_version(&self, text: &str) -> (r: Option<String>) {
        // A workspace member may carry `version.workspace = true`; only a
        // concrete string is reported (the workspace floor lives elsewhere).
        read_package_text(text, "version")
    }

    fn parse_edges(&self, text: &str) -> (r: Option<Vec<DepEdge>>) {
        let root: Vec<String> = Vec::new();
        assert(root.deep_view() =~= seq![]);
        if read_toml(text, &root).is_none() {
            return None;
        }
        let mut edges: Vec<DepEdge> = Vec::new();
        append_cargo_section(&mut edges, text, &keys("dependencies", None));
        append_cargo_section(&mut edges, text, &keys("dev-dependencies", None));
        append_cargo_section(&mut edges, text, &keys("build-dependencies", None));
        append_cargo_section(&mut edges, text, &keys("workspace", Some("dependencies")));
        assert(edges.deep_view() =~= cargo_sections(text@));
        Some(edges)
    }

    fn bump(&self, text: &str, module: &str, target: &str) -> (r: (String, bool)) {
        // String form only (`module = "ver"`); an inline table is left alone.
        let l = plain_layout_of();
        rewrite_found(CARGO_DEP, text, &l, module, target)
    }
}

// ─── pnpm catalog ───────────────────────────────────────────────────────

/// One `  '<name>': <op><ver>` catalog entry. Group 1 runs from the line's indent
/// through any quote + caret/tilde, group 2 is the name, group 4 the operator,
/// group 5 the version, group 6 the closing quote, and group 7 carries any
/// trailing spacing/comment, so a rewrite that keeps groups 1, 6 and 7 preserves
/// the file's quoting style, operator, and end-of-line comment verbatim. The
/// version is anchored on a leading digit, so `catalog:`-style or non-version
/// values never match.
pub const CATALOG_ENTRY: &'static str =
    r#"(?m)^(?P<head>[ \t]+(?P<name>'[^']+'|"[^"]+"|[A-Za-z0-9@._/-]+)[ \t]*:[ \t]*(?P<vq>['"]?)(?P<op>[\^~]?))(?P<ver>[0-9][^'"\s#]*)(?P<tail>['"]?)(?P<rest>[ \t]*(?:#[^\n]*)?)$"#;

/// Reads pnpm's `catalog:` block in `pnpm-workspace.yaml` — the repo-wide
/// version map that `"dep": "catalog:"` entries in each `package.json` resolve
/// through. In a catalog workspace this file, not `package.json`, is where the
/// version actually lives, so it is the file a bump must rewrite. (`NpmProvider`
/// correctly ignores those entries: `catalog:` parses to
/// [`VersionConstraint::Other`], which discovery skips.)
///
/// The workspace root publishes nothing, so `published_name`/`published_version`
/// are always `None` — this provider contributes edges only.
///
/// Only the default `catalog:` block is read; pnpm's named `catalogs:` (plural)
/// blocks are deliberately not matched (`catalogs:` is not the `catalog:` header).
#[derive(Debug, Clone, Copy)]
pub struct PnpmCatalogProvider {}

/// How [`CATALOG_ENTRY`] names its parts.
pub open spec fn catalog_layout() -> LayoutView {
    LayoutView { name: 2, quoted: true, before: seq![1], behind: seq![6, 7] }
}

/// How [`CATALOG_ENTRY`] names its parts.
fn catalog_layout_of() -> (r: Layout)
    ensures
        r.deep_view() == catalog_layout(),
{
    let l = Layout { name: 2, quoted: true, before: vec![1], behind: vec![6, 7] };
    assert(l.deep_view().before =~= seq![1]);
    assert(l.deep_view().behind =~= seq![6, 7]);
    l
}

/// Where the line that holds `i` ends, its line break counted.
pub open spec fn line_end(t: Seq<char>, i: int) -> int
    decreases t.len() - i,
{
    if i < 0 || i >= t.len() {
        t.len() as int
    } else if t[i] == '\n' {
        i + 1
    } else {
        line_end(t, i + 1)
    }
}

/// A line without its line break.
pub open spec fn without_break(l: Seq<char>) -> Seq<char>
    decreases l.len(),
{
    if l.len() > 0 && (l.last() == '\n' || l.last() == '\r') {
        without_break(l.drop_last())
    } else {
        l
    }
}

/// Is there nothing in `s` but white space, or a comment?
pub open spec fn is_blank_or_comment(s: Seq<char>) -> bool {
    let ink = text::trim_start(s);
    ink.len() == 0 || ink[0] == '#'
}

/// A bare `catalog:` header at column 0 (trailing comment allowed). Does not
/// hold of `catalogs:` — pnpm's named-catalog block, a different shape.
pub open spec fn is_header(line: Seq<char>) -> bool {
    "catalog:"@.is_prefix_of(line) && is_blank_or_comment(line.skip("catalog:"@.len() as int))
}

/// Does the line begin another block: is there something at column 0 that is
/// not a comment?
pub open spec fn ends_block(line: Seq<char>) -> bool {
    !is_blank_or_comment(line) && line[0] != ' ' && line[0] != '\t'
}

/// Where the body begins of the first catalog whose header stands at `i` or
/// below; `i` begins a line.
pub open spec fn catalog_start(t: Seq<char>, i: int) -> Option<int>
    decreases t.len() - i,
{
    if i < 0 || i >= t.len() {
        None
    } else {
        let j = line_end(t, i);
        proof {
            line_end_bounds(t, i);
        }
        if is_header(without_break(t.subrange(i, j))) {
            Some(j)
        } else {
            catalog_start(t, j)
        }
    }
}

/// Where the block ends whose body goes on at `i`; `i` begins a line.
pub open spec fn block_end(t: Seq<char>, i: int) -> int
    decreases t.len() - i,
{
    if i < 0 || i >= t.len() {
        t.len() as int
    } else {
        let j = line_end(t, i);
        proof {
            line_end_bounds(t, i);
        }
        if ends_block(without_break(t.subrange(i, j))) {
            i
        } else {
            block_end(t, j)
        }
    }
}

/// A line ends behind where it begins, and within the text.
pub proof fn line_end_bounds(t: Seq<char>, i: int)
    ensures
        line_end(t, i) <= t.len(),
        0 <= i < t.len() ==> i < line_end(t, i),
    decreases t.len() - i,
{
    if 0 <= i < t.len() && t[i] != '\n' {
        line_end_bounds(t, i + 1);
    }
}

/// The body of the default `catalog:` block: from the line after the header to
/// the next line at column 0 that is neither blank nor a comment (`packages:`,
/// `catalogs:`, …).
pub open spec fn catalog_body(t: Seq<char>) -> Option<(int, int)> {
    match catalog_start(t, 0) {
        Some(s) => Some((s, block_end(t, s))),
        None => None,
    }
}

/// Where the line that holds `i` ends.
pub(crate) fn find_line_end(v: &Vec<char>, i: usize) -> (r: usize)
    requires
        i < v@.len(),
    ensures
        r == line_end(v@, i as int),
        i < r <= v@.len(),
{
    let mut j: usize = i;
    while j < v.len()
        invariant
            i <= j <= v@.len(),
            line_end(v@, i as int) == line_end(v@, j as int),
            i < v@.len(),
        decreases v@.len() - j,
    {
        if v[j] == '\n' {
            return j + 1;
        }
        j = j + 1;
    }
    j
}

/// The line from `i` to `j` without its line break.
fn line_text(v: &Vec<char>, i: usize, j: usize) -> (r: String)
    requires
        i <= j <= v@.len(),
    ensures
        r@ == without_break(v@.subrange(i as int, j as int)),
{
    let mut k: usize = j;
    while k > i && (v[k - 1] == '\n' || v[k - 1] == '\r')
        invariant
            i <= k <= j <= v@.len(),
            without_break(v@.subrange(i as int, j as int)) == without_break(
                v@.subrange(i as int, k as int),
            ),
        decreases k,
    {
        assert(v@.subrange(i as int, k as int).drop_last() =~= v@.subrange(i as int, k - 1));
        k = k - 1;
    }
    text_of(v, i, k)
}

/// Is there nothing in `s` but white space, or a comment?
fn blank_or_comment(s: &str) -> (r: bool)
    ensures
        r == is_blank_or_comment(s@),
{
    let ink = trim_front(s);
    let ink = chars_of(ink.as_str());
    ink.len() == 0 || ink[0] == '#'
}

impl PnpmCatalogProvider {
    pub fn new() -> (r: Self)
        ensures
            r == (PnpmCatalogProvider {  }),
    {
        PnpmCatalogProvider {  }
    }

    /// A bare `catalog:` header at column 0 (trailing comment allowed).
    pub fn is_catalog_header(line: &str) -> (r: bool)
        ensures
            r == is_header(line@),
    {
        if !starts_with(line, "catalog:") {
            return false;
        }
        let v = chars_of(line);
        let n: usize = "catalog:".unicode_len();
        let rest = text_of(&v, n, v.len());
        assert(rest@ =~= line@.skip("catalog:"@.len() as int));
        blank_or_comment(rest.as_str())
    }

    /// Does the line begin another block?
    fn ends_catalog(line: &str) -> (r: bool)
        ensures
            r == ends_block(line@),
    {
        if blank_or_comment(line) {
            return false;
        }
        let v = chars_of(line);
        assert(v@.len() > 0);
        v[0] != ' ' && v[0] != '\t'
    }

    /// The body of the default `catalog:` block, in characters — entries are
    /// only ever read or rewritten inside it, never in `packages:` or anywhere
    /// else.
    pub fn catalog_span(v: &Vec<char>) -> (r: Option<(usize, usize)>)
        ensures
            r matches Some(span) ==> {
                &&& catalog_body(v@) == Some((span.0 as int, span.1 as int))
                &&& span.0 <= span.1 <= v@.len()
            },
            r is None ==> catalog_body(v@) is None,
    {
        let mut i: usize = 0;
        while i < v.len()
            invariant
                i <= v@.len(),
                catalog_start(v@, 0) == catalog_start(v@, i as int),
            decreases v@.len() - i,
        {
            let j = find_line_end(v, i);
            let line = line_text(v, i, j);
            if Self::is_catalog_header(line.as_str()) {
                let end = Self::catalog_end(v, j);
                return Some((j, end));
            }
            i = j;
        }
        None
    }

    /// Where the block ends whose body begins at `start`.
    fn catalog_end(v: &Vec<char>, start: usize) -> (r: usize)
        requires
            start <= v@.len(),
        ensures
            r == block_end(v@, start as int),
            start <= r <= v@.len(),
    {
        let mut i: usize = start;
        while i < v.len()
            invariant
                start <= i <= v@.len(),
                block_end(v@, start as int) == block_end(v@, i as int),
            decreases v@.len() - i,
        {
            let j = find_line_end(v, i);
            let line = line_text(v, i, j);
            if Self::ends_catalog(line.as_str()) {
                return i;
            }
            i = j;
        }
        i
    }
}

/// The edge that a catalog entry is.
pub open spec fn catalog_edge(t: Seq<char>, m: Seq<Option<Span>>) -> DepEdgeView {
    DepEdgeView {
        module: pattern::unquoted(pattern::group(t, m, 2)),
        current: edge::npm_constraint(pattern::group(t, m, 4) + pattern::group(t, m, 5)),
        manifest_path: "pnpm-workspace.yaml"@,
        kind: EdgeKind::Npm,
    }
}

/// The edges that the given catalog entries are.
pub fn catalog_edges(text: &str, matches: &Vec<Groups>) -> (r: Vec<DepEdge>)
    requires
        pattern::are_matches(text@, pattern::match_list(matches@)),
    ensures
        r.deep_view() == pattern::match_list(matches@).map_values(
            |m: Seq<Option<Span>>| catalog_edge(text@, m),
        ),
{
    let ghost ms = pattern::match_list(matches@);
    let mut out: Vec<DepEdge> = Vec::new();
    let mut i: usize = 0;
    while i < matches.len()
        invariant
            ms == pattern::match_list(matches@),
            pattern::are_matches(text@, ms),
            i <= matches@.len(),
            out@.len() == i,
            forall|j: int|
                0 <= j < i ==> (#[trigger] out@[j]).deep_view() == catalog_edge(text@, ms[j]),
        decreases matches@.len() - i,
    {
        assert(pattern::is_match(text@, ms[i as int]));
        let name = group_text(text, &matches[i], 2);
        let mut spec = group_text(text, &matches[i], 4);
        let ver = group_text(text, &matches[i], 5);
        spec.append(ver.as_str());
        out.push(
            DepEdge {
                module: unquote(name.as_str()),
                current: VersionConstraint::parse_npm(spec.as_str()),
                manifest_path: "pnpm-workspace.yaml".to_owned(),
                kind: EdgeKind::Npm,
            },
        );
        i = i + 1;
    }
    assert(out.deep_view() =~= ms.map_values(|m: Seq<Option<Span>>| catalog_edge(text@, m)));
    out
}

impl Default for PnpmCatalogProvider {
    fn default() -> (r: Self)
        ensures
            r == (PnpmCatalogProvider {  }),
    {
        Self::new()
    }
}

impl GraphProvider for PnpmCatalogProvider {
    open spec fn manifest(&self) -> Seq<char> {
        "pnpm-workspace.yaml"@
    }

    open spec fn edge_kind(&self) -> EdgeKind {
        EdgeKind::Npm
    }

    open spec fn name_in(&self, text: Seq<char>) -> Option<Seq<char>> {
        None
    }

    open spec fn version_in(&self, text: Seq<char>) -> Option<Seq<char>> {
        None
    }

    open spec fn edges_in(&self, text: Seq<char>) -> Option<Seq<DepEdgeView>> {
        match catalog_body(text) {
            Some((start, end)) => {
                let body = text.subrange(start, end);
                Some(
                    found(CATALOG_ENTRY@, body).map_values(
                        |m: Seq<Option<Span>>| catalog_edge(body, m),
                    ),
                )
            },
            None => None,
        }
    }

    open spec fn has_entry(&self, text: Seq<char>, module: Seq<char>) -> bool {
        match catalog_body(text) {
            Some((start, end)) => {
                let body = text.subrange(start, end);
                pattern::any_entry(body, found(CATALOG_ENTRY@, body), catalog_layout(), module)
            },
            None => false,
        }
    }

    open spec fn bumped(&self, text: Seq<char>, module: Seq<char>, target: Seq<char>) -> Seq<char> {
        match catalog_body(text) {
            Some((start, end)) => {
                let body = text.subrange(start, end);
                text.take(start) + pattern::rewritten(
                    body,
                    found(CATALOG_ENTRY@, body),
                    catalog_layout(),
                    module,
                    target,
                ) + text.skip(end)
            },
            None => text,
        }
    }

    fn manifest_name(&self) -> (r: &'static str) {
        "pnpm-workspace.yaml"
    }

    fn kind(&self) -> (r: EdgeKind) {
        EdgeKind::Npm
    }

    /// A workspace root publishes nothing.
    fn published_name(&self, text: &str) -> (r: Option<String>) {
        None
    }

    /// A workspace root publishes nothing.
    fn published_version(&self, text: &str) -> (r: Option<String>) {
        None
    }

    fn parse_edges(&self, text: &str) -> (r: Option<Vec<DepEdge>>) {
        // No `catalog:` block ⇒ not a catalog workspace; fall through the chain
        // (a pnpm-workspace.yaml carrying only `packages:` yields no edges).
        let v = chars_of(text);
        match Self::catalog_span(&v) {
            Some((start, end)) => {
                let body = text_of(&v, start, end);
                let ms = find(CATALOG_ENTRY, body.as_str());
                Some(catalog_edges(body.as_str(), &ms))
            },
            None => None,
        }
    }

    fn bump(&self, text: &str, module: &str, target: &str) -> (r: (String, bool)) {
        let v = chars_of(text);
        match Self::catalog_span(&v) {
            Some((start, end)) => {
                let mut out = text_of(&v, 0, start);
                let body = text_of(&v, start, end);
                let l = catalog_layout_of();
                let (new_body, changed) = rewrite_found(
                    CATALOG_ENTRY,
                    body.as_str(),
                    &l,
                    module,
                    target,
                );
                out.append(new_body.as_str());
                let rest = text_of(&v, end, v.len());
                out.append(rest.as_str());
                proof {
                    assert(text@.subrange(0, start as int) =~= text@.take(start as int));
                    assert(text@.subrange(end as int, text@.len() as int) =~= text@.skip(
                        end as int,
                    ));
                    assert(text@ =~= text@.take(start as int) + body@ + text@.skip(end as int));
                }
                (out, changed)
            },
            None => (text.to_owned(), false),
        }
    }
}

/// A catalog's body lies in the text, behind its header.
pub proof fn catalog_body_bounds(t: Seq<char>)
    ensures
        catalog_body(t) matches Some((start, end)) ==> 0 < start <= end <= t.len(),
{
    catalog_start_bounds(t, 0);
    if let Some(s) = catalog_start(t, 0) {
        block_end_bounds(t, s);
    }
}

pub proof fn catalog_start_bounds(t: Seq<char>, i: int)
    requires
        0 <= i,
    ensures
        catalog_start(t, i) matches Some(s) ==> i < s <= t.len(),
    decreases t.len() - i,
{
    if i < t.len() {
        line_end_bounds(t, i);
        catalog_start_bounds(t, line_end(t, i));
    }
}

proof fn block_end_bounds(t: Seq<char>, i: int)
    requires
        0 <= i <= t.len(),
    ensures
        i <= block_end(t, i) <= t.len(),
    decreases t.len() - i,
{
    if i < t.len() {
        line_end_bounds(t, i);
        block_end_bounds(t, line_end(t, i));
    }
}

/// Bumping a catalog entry leaves everything outside the catalog's body as it
/// is: the text up to the body, and the text behind it.
pub proof fn catalog_bump_is_surgical(
    p: PnpmCatalogProvider,
    text: Seq<char>,
    module: Seq<char>,
    target: Seq<char>,
)
    ensures
        catalog_body(text) matches Some((start, end)) ==> text.take(start).is_prefix_of(
            p.bumped(text, module, target),
        ) && text.skip(end).is_suffix_of(p.bumped(text, module, target)),
        catalog_body(text) is None ==> p.bumped(text, module, target) == text,
{
    catalog_body_bounds(text);
    if let Some((start, end)) = catalog_body(text) {
        let out = p.bumped(text, module, target);
        assert(out.subrange(0, start) =~= text.take(start));
        assert(out.subrange(out.len() - (text.len() - end), out.len() as int) =~= text.skip(end));
    }
}

/// What a catalog bump can change is what discovery sees: there is an entry to
/// rewrite exactly where an edge of the catalog is on the module.
pub proof fn catalog_entries_are_edges(p: PnpmCatalogProvider, text: Seq<char>, module: Seq<char>)
    ensures
        p.has_entry(text, module) <==> (p.edges_in(text) matches Some(es) && exists|i: int|
            0 <= i < es.len() && (#[trigger] es[i]).module == module),
{
    if let Some((start, end)) = catalog_body(text) {
        let body = text.subrange(start, end);
        let ms = found(CATALOG_ENTRY@, body);
        let es = p.edges_in(text)->0;
        assert forall|i: int| 0 <= i < ms.len() implies (#[trigger] es[i]).module
            == pattern::entry_name(body, ms[i], catalog_layout()) by {
            assert(es[i] == catalog_edge(body, ms[i]));
        }
        if p.has_entry(text, module) {
            let i = choose|i: int|
                0 <= i < ms.len() && pattern::entry_name(body, #[trigger] ms[i], catalog_layout())
                    == module;
            assert(es[i].module == module);
        }
        if exists|i: int| 0 <= i < es.len() && (#[trigger] es[i]).module == module {
            let i = choose|i: int| 0 <= i < es.len() && (#[trigger] es[i]).module == module;
            assert(pattern::entry_name(body, ms[i], catalog_layout()) == module);
        }
    }
}

// ─── the chain ──────────────────────────────────────────────────────────

/// One of the manifest kinds.
#[derive(Debug, Clone, Copy)]
pub enum Provider {
    Bazel(BazelDepProvider),
    Npm(NpmProvider),
    Cargo(CargoProvider),
    PnpmCatalog(PnpmCatalogProvider),
}

impl GraphProvider for Provider {
    open spec fn manifest(&self) -> Seq<char> {
        match self {
            Provider::Bazel(p) => p.manifest(),
            Provider::Npm(p) => p.manifest(),
            Provider::Cargo(p) => p.manifest(),
            Provider::PnpmCatalog(p) => p.manifest(),
        }
    }

    open spec fn edge_kind(&self) -> EdgeKind {
        match self {
            Provider::Bazel(p) => p.edge_kind(),
            Provider::Npm(p) => p.edge_kind(),
            Provider::Cargo(p) => p.edge_kind(),
            Provider::PnpmCatalog(p) => p.edge_kind(),
        }
    }

    open spec fn name_in(&self, text: Seq<char>) -> Option<Seq<char>> {
        match self {
            Provider::Bazel(p) => p.name_in(text),
            Provider::Npm(p) => p.name_in(text),
            Provider::Cargo(p) => p.name_in(text),
            Provider::PnpmCatalog(p) => p.name_in(text),
        }
    }

    open spec fn version_in(&self, text: Seq<char>) -> Option<Seq<char>> {
        match self {
            Provider::Bazel(p) => p.version_in(text),
            Provider::Npm(p) => p.version_in(text),
            Provider::Cargo(p) => p.version_in(text),
            Provider::PnpmCatalog(p) => p.version_in(text),
        }
    }

    open spec fn edges_in(&self, text: Seq<char>) -> Option<Seq<DepEdgeView>> {
        match self {
            Provider::Bazel(p) => p.edges_in(text),
            Provider::Npm(p) => p.edges_in(text),
            Provider::Cargo(p) => p.edges_in(text),
            Provider::PnpmCatalog(p) => p.edges_in(text),
        }
    }

    open spec fn has_entry(&self, text: Seq<char>, module: Seq<char>) -> bool {
        match self {
            Provider::Bazel(p) => p.has_entry(text, module),
            Provider::Npm(p) => p.has_entry(text, module),
            Provider::Cargo(p) => p.has_entry(text, module),
            Provider::PnpmCatalog(p) => p.has_entry(text, module),
        }
    }

    open spec fn bumped(&self, text: Seq<char>, module: Seq<char>, target: Seq<char>) -> Seq<char> {
        match self {
            Provider::Bazel(p) => p.bumped(text, module, target),
            Provider::Npm(p) => p.bumped(text, module, target),
            Provider::Cargo(p) => p.bumped(text, module, target),
            Provider::PnpmCatalog(p) => p.bumped(text, module, target),
        }
    }

    fn manifest_name(&self) -> (r: &'static str) {
        match self {
            Provider::Bazel(p) => p.manifest_name(),
            Provider::Npm(p) => p.manifest_name(),
            Provider::Cargo(p) => p.manifest_name(),
            Provider::PnpmCatalog(p) => p.manifest_name(),
        }
    }

    fn kind(&self) -> (r: EdgeKind) {
        match self {
            Provider::Bazel(p) => p.kind(),
            Provider::Npm(p) => p.kind(),
            Provider::Cargo(p) => p.kind(),
            Provider::PnpmCatalog(p) => p.kind(),
        }
    }

    fn published_name(&self, text: &str) -> (r: Option<String>) {
        match self {
            Provider::Bazel(p) => p.published_name(text),
            Provider::Npm(p) => p.published_name(text),
            Provider::Cargo(p) => p.published_name(text),
            Provider::PnpmCatalog(p) => p.published_name(text),
        }
    }

    fn published_version(&self, text: &str) -> (r: Option<String>) {
        match self {
            Provider::Bazel(p) => p.published_version(text),
            Provider::Npm(p) => p.published_version(text),
            Provider::Cargo(p) => p.published_version(text),
            Provider::PnpmCatalog(p) => p.published_version(text),
        }
    }

    fn parse_edges(&self, text: &str) -> (r: Option<Vec<DepEdge>>) {
        match self {
            Provider::Bazel(p) => p.parse_edges(text),
            Provider::Npm(p) => p.parse_edges(text),
            Provider::Cargo(p) => p.parse_edges(text),
            Provider::PnpmCatalog(p) => p.parse_edges(text),
        }
    }

    fn bump(&self, text: &str, module: &str, target: &str) -> (r: (String, bool)) {
        match self {
            Provider::Bazel(p) => p.bump(text, module, target),
            Provider::Npm(p) => p.bump(text, module, target),
            Provider::Cargo(p) => p.bump(text, module, target),
            Provider::PnpmCatalog(p) => p.bump(text, module, target),
        }
    }
}

/// An ordered list of providers tried per repo until one applies.
#[derive(Debug)]
pub struct ProviderChain {
    providers: Vec<Provider>,
}

impl View for ProviderChain {
    type V = Seq<Provider>;

    closed spec fn view(&self) -> Seq<Provider> {
        self.providers@
    }
}

/// The first provider that reads the manifest `name`.
pub open spec fn provider_for(ps: Seq<Provider>, name: Seq<char>) -> Option<Provider>
    decreases ps.len(),
{
    if ps.len() == 0 {
        None
    } else if ps[0].manifest() == name {
        Some(ps[0])
    } else {
        provider_for(ps.skip(1), name)
    }
}

/// A manifest is read by the first provider of the chain that goes by its name, and
/// by none where no provider does.
pub proof fn first_provider_is_chosen(ps: Seq<Provider>, name: Seq<char>)
    ensures
        provider_for(ps, name) matches Some(p) ==> exists|k: int|
            0 <= k < ps.len() && (#[trigger] ps[k]) == p && p.manifest() == name && forall|j: int|
                0 <= j < k ==> (#[trigger] ps[j]).manifest() != name,
        provider_for(ps, name) is None <==> forall|k: int|
            0 <= k < ps.len() ==> (#[trigger] ps[k]).manifest() != name,
    decreases ps.len(),
{
    if ps.len() > 0 {
        if ps[0].manifest() == name {
            assert(ps[0] == provider_for(ps, name)->0);
        } else {
            let tail = ps.skip(1);
            first_provider_is_chosen(tail, name);
            if let Some(p) = provider_for(ps, name) {
                let k = choose|k: int|
                    0 <= k < tail.len() && (#[trigger] tail[k]) == p && p.manifest() == name
                        && forall|j: int| 0 <= j < k ==> (#[trigger] tail[j]).manifest() != name;
                assert(ps[k + 1] == p);
                assert forall|j: int| 0 <= j < k + 1 implies (#[trigger] ps[j]).manifest()
                    != name by {
                    if j > 0 {
                        assert(tail[j - 1] == ps[j]);
                    }
                }
            } else {
                assert forall|k: int| 0 <= k < ps.len() implies (#[trigger] ps[k]).manifest()
                    != name by {
                    if k > 0 {
                        assert(tail[k - 1] == ps[k]);
                    }
                }
            }
            if forall|k: int| 0 <= k < ps.len() ==> (#[trigger] ps[k]).manifest() != name {
                assert forall|k: int| 0 <= k < tail.len() implies (#[trigger] tail[k]).manifest()
                    != name by {
                    assert(ps[k + 1] == tail[k]);
                }
            }
        }
    }
}

impl ProviderChain {
    pub fn new(providers: Vec<Provider>) -> (r: Self)
        ensures
            r@ == providers@,
    {
        ProviderChain { providers }
    }

    /// The default chain: Bazel, then npm, then Cargo, then the pnpm catalog.
    /// Callers union the edges from every manifest a repo carries, so a pnpm
    /// catalog workspace contributes both its `package.json` pins and its
    /// `pnpm-workspace.yaml` catalog entries.
    pub fn default_chain() -> (r: Self)
        ensures
            r@ == seq![
                Provider::Bazel(BazelDepProvider {  }),
                Provider::Npm(NpmProvider {  }),
                Provider::Cargo(CargoProvider {  }),
                Provider::PnpmCatalog(PnpmCatalogProvider {  }),
            ],
    {
        ProviderChain {
            providers: vec![
                Provider::Bazel(BazelDepProvider {  }),
                Provider::Npm(NpmProvider {  }),
                Provider::Cargo(CargoProvider {  }),
                Provider::PnpmCatalog(PnpmCatalogProvider {  }),
            ],
        }
    }

    /// The providers in order.
    pub fn providers(&self) -> (r: &Vec<Provider>)
        ensures
            r@ == self@,
    {
        &self.providers
    }

    /// Find the provider that owns `manifest_name`.
    pub fn for_manifest(&self, manifest_name: &str) -> (r: Option<&Provider>)
        ensures
            match r {
                Some(p) => provider_for(self@, manifest_name@) == Some(*p),
                None => provider_for(self@, manifest_name@) is None,
            },
    {
        let ghost ps = self@;
        let mut i: usize = 0;
        assert(ps.skip(0) =~= ps);
        while i < self.providers.len()
            invariant
                ps == self@,
                i <= self.providers@.len(),
                provider_for(ps, manifest_name@) == provider_for(
                    ps.skip(i as int),
                    manifest_name@,
                ),
            decreases self.providers@.len() - i,
        {
            assert(ps.skip(i as int)[0] == self.providers@[i as int]);
            if same_text(self.providers[i].manifest_name(), manifest_name) {
                return Some(&self.providers[i]);
            }
            assert(ps.skip(i as int).skip(1) =~= ps.skip(i + 1));
            i = i + 1;
        }
        None
    }
}

} // verus!
