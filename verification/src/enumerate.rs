//! Repo enumeration + graph-node assembly.
//!
//! Says which pages of a forge's REST API list a group/org's repos (GitLab
//! `/groups/:id/projects`, GitHub `/orgs/:org/repos`), which of the listed repos
//! count, and what [`RepoNode`] a repo's manifests make. A repo whose manifest
//! none of the providers recognize is skipped. The requests themselves are made
//! outside the library.
//!
//! `owner` is the enumerated group/org — correct for a flat group; nested GitLab
//! subgroups would need `path_with_namespace` (a follow-up).
use vstd::prelude::*;
use vstd::string::*;
use vstd::utf8;

use crate::edge::{DepEdge, DepEdgeView};
use crate::forge::{ForgeKind, RepoRef, RepoRefView};
use crate::graph::{NodeView, RepoNode};
use crate::provider::{GraphProvider, Provider, ProviderChain};
use crate::select;
use crate::text::{self, chars_of, decimal_of, same_text};

verus! {

/// A repo to consider for the cascade.
#[derive(Debug, PartialEq, Eq)]
pub struct RepoSpec {
    pub name: String,
}

/// What a [`RepoSpec`] says.
pub struct RepoSpecView {
    pub name: Seq<char>,
}

impl DeepView for RepoSpec {
    type V = RepoSpecView;

    open spec fn deep_view(&self) -> RepoSpecView {
        RepoSpecView { name: self.name@ }
    }
}

// ─── pages ──────────────────────────────────────────────────────────────

/// A page of a GitLab group's projects; `group` is percent-encoded.
pub open spec fn gitlab_page(host: Seq<char>, group: Seq<char>, page: nat) -> Seq<char> {
    "https://"@ + host + "/api/v4/groups/"@ + group
        + "/projects?include_subgroups=true&archived=false&per_page=100&page="@ + text::decimal(
        page,
    )
}

/// A page of a GitLab group's projects.
pub fn gitlab_page_url(host: &str, group: &str, page: u32) -> (r: String)
    ensures
        r@ == gitlab_page(host@, percent_encoded(utf8::encode_utf8(group@)), page as nat),
{
    let mut out = "https://".to_owned();
    out.append(host);
    out.append("/api/v4/groups/");
    let enc = percent_encode(group);
    out.append(enc.as_str());
    out.append("/projects?include_subgroups=true&archived=false&per_page=100&page=");
    let p = decimal_of(page as u64);
    out.append(p.as_str());
    out
}

/// The base of a GitHub API: github.com → api.github.com; Enterprise →
/// `https://<host>/api/v3`.
pub open spec fn github_base(host: Seq<char>) -> Seq<char> {
    if host.len() == 0 || host == "github.com"@ {
        "https://api.github.com"@
    } else {
        "https://"@ + host + "/api/v3"@
    }
}

/// A page of a GitHub organisation's repos.
pub open spec fn github_page(host: Seq<char>, org: Seq<char>, page: nat) -> Seq<char> {
    github_base(host) + "/orgs/"@ + org + "/repos?per_page=100&page="@ + text::decimal(page)
}

/// The page to ask for behind a page of a GitHub organisation's repos: none
/// behind an empty one.
pub fn page_behind(page: u32, empty: bool) -> (r: Option<u32>)
    ensures
        r == (if empty || page == u32::MAX {
            None
        } else {
            Some((page + 1) as u32)
        }),
{
    if empty || page == u32::MAX {
        None
    } else {
        Some(page + 1)
    }
}

/// A page of a GitHub organisation's repos.
pub fn github_page_url(host: &str, org: &str, page: u32) -> (r: String)
    ensures
        r@ == github_page(host@, org@, page as nat),
{
    let empty = String::new();
    assert(host@ == empty@ <==> host@.len() == 0) by {
        if host@.len() == 0 {
            assert(host@ =~= empty@);
        }
    }
    let mut out = if same_text(host, empty.as_str()) || same_text(host, "github.com") {
        "https://api.github.com".to_owned()
    } else {
        let mut base = "https://".to_owned();
        base.append(host);
        base.append("/api/v3");
        base
    };
    out.append("/orgs/");
    out.append(org);
    out.append("/repos?per_page=100&page=");
    let p = decimal_of(page as u64);
    out.append(p.as_str());
    out
}

/// The number that the digits of `s` make; `None` where one is no digit.
pub open spec fn digits_value(s: Seq<char>) -> Option<nat>
    decreases s.len(),
{
    if s.len() == 0 {
        Some(0)
    } else {
        match digits_value(s.drop_last()) {
            Some(n) => if '0' <= s.last() <= '9' {
                Some((n * 10 + (s.last() as nat - '0' as nat)) as nat)
            } else {
                None
            },
            None => None,
        }
    }
}

/// The number that `s` is: one or more digits, perhaps behind a `+`, of no more
/// than `u32::MAX`.
pub open spec fn number_in(s: Seq<char>) -> Option<u32> {
    let digits = if s.len() > 0 && s[0] == '+' {
        s.skip(1)
    } else {
        s
    };
    if digits.len() == 0 {
        None
    } else {
        match digits_value(digits) {
            Some(n) => if n <= u32::MAX {
                Some(n as u32)
            } else {
                None
            },
            None => None,
        }
    }
}

proof fn digits_value_grows(s: Seq<char>, n: int)
    requires
        0 <= n <= s.len(),
    ensures
        digits_value(s.take(n)) is None ==> digits_value(s) is None,
        digits_value(s) matches Some(v) ==> digits_value(s.take(n)) matches Some(w) && w <= v,
    decreases s.len(),
{
    if n == s.len() {
        assert(s.take(n) =~= s);
    } else {
        assert(s.drop_last().take(n) =~= s.take(n));
        digits_value_grows(s.drop_last(), n);
    }
}

/// The number that `s` is.
fn parse_number(s: &str) -> (r: Option<u32>)
    ensures
        r == number_in(s@),
{
    let v = chars_of(s);
    let start: usize = if v.len() > 0 && v[0] == '+' {
        1
    } else {
        0
    };
    let ghost digits = s@.skip(start as int);
    assert(s@.skip(0) =~= s@);
    if v.len() == start {
        return None;
    }
    let mut n: u64 = 0;
    let mut i: usize = start;
    assert(digits.take(0) =~= seq![]);
    while i < v.len()
        invariant
            v@ == s@,
            digits == s@.skip(start as int),
            digits == (if s@.len() > 0 && s@[0] == '+' {
                s@.skip(1)
            } else {
                s@
            }),
            start <= i <= v@.len(),
            digits.len() == v@.len() - start,
            digits.len() > 0,
            digits_value(digits.take(i - start)) == Some(n as nat),
            n <= u32::MAX,
        decreases v@.len() - i,
    {
        let c = v[i];
        proof {
            let next = digits.take(i - start + 1);
            assert(next.drop_last() =~= digits.take(i - start));
            assert(next.last() == c);
            digits_value_grows(digits, i - start + 1);
        }
        if c < '0' || c > '9' {
            return None;
        }
        let d: u32 = c as u32 - '0' as u32;
        n = n * 10 + d as u64;
        if n > u32::MAX as u64 {
            return None;
        }
        i = i + 1;
    }
    assert(digits.take(digits.len() as int) =~= digits);
    Some(n as u32)
}

/// The page that follows: GitLab's `x-next-page` header names it, unless it is
/// the last.
pub open spec fn page_after(header: Seq<char>) -> Option<u32> {
    match number_in(header) {
        Some(n) => if n > 0 {
            Some(n)
        } else {
            None
        },
        None => None,
    }
}

/// The page that follows, by GitLab's `x-next-page` header.
pub fn next_page(header: &str) -> (r: Option<u32>)
    ensures
        r == page_after(header@),
{
    match parse_number(header) {
        Some(n) => {
            if n > 0 {
                Some(n)
            } else {
                None
            }
        },
        None => None,
    }
}

/// A repo as GitHub lists it.
#[derive(Debug, PartialEq, Eq)]
pub struct GhRepo {
    pub name: String,
    pub archived: bool,
    pub fork: bool,
}

/// What a [`GhRepo`] says.
pub struct GhRepoView {
    pub name: Seq<char>,
    pub archived: bool,
    pub fork: bool,
}

impl DeepView for GhRepo {
    type V = GhRepoView;

    open spec fn deep_view(&self) -> GhRepoView {
        GhRepoView { name: self.name@, archived: self.archived, fork: self.fork }
    }
}

/// The repos of a page that count: archived repos and forks do not.
pub open spec fn managed(repos: Seq<GhRepoView>) -> Seq<RepoSpecView>
    decreases repos.len(),
{
    if repos.len() == 0 {
        seq![]
    } else {
        let init = managed(repos.drop_last());
        if repos.last().archived || repos.last().fork {
            init
        } else {
            init.push(RepoSpecView { name: repos.last().name })
        }
    }
}

/// Skip archived repos and forks — discovery doesn't manage a vendored fork's
/// upstream deps (e.g. a next.js fork with hundreds of npm deps).
pub fn managed_repos(repos: &Vec<GhRepo>) -> (r: Vec<RepoSpec>)
    ensures
        r.deep_view() == managed(repos.deep_view()),
{
    let ghost rv = repos.deep_view();
    let mut out: Vec<RepoSpec> = Vec::new();
    let mut i: usize = 0;
    assert(out.deep_view() =~= managed(rv.take(0)));
    while i < repos.len()
        invariant
            rv == repos.deep_view(),
            i <= repos@.len() == rv.len(),
            out.deep_view() == managed(rv.take(i as int)),
        decreases repos@.len() - i,
    {
        let ghost before = out.deep_view();
        assert(rv.take(i + 1).drop_last() =~= rv.take(i as int));
        assert(rv.take(i + 1).last() == repos@[i as int].deep_view());
        if !repos[i].archived && !repos[i].fork {
            let spec = RepoSpec { name: repos[i].name.clone() };
            out.push(spec);
            assert(out.deep_view() =~= before.push(spec.deep_view()));
        }
        i = i + 1;
    }
    assert(rv.take(rv.len() as int) =~= rv);
    out
}

// ─── nodes ──────────────────────────────────────────────────────────────

/// What the first `n` manifests of a repo come to: whether a provider recognized
/// one, the name that the first of those to declare one publishes, and all their
/// edges.
pub open spec fn manifests_say(
    chain: Seq<Provider>,
    texts: Seq<Option<Seq<char>>>,
    n: nat,
) -> (bool, Option<Seq<char>>, Seq<DepEdgeView>)
    decreases n,
{
    if n == 0 {
        (false, None, seq![])
    } else {
        let (matched, published, edges) = manifests_say(chain, texts, (n - 1) as nat);
        match texts[n - 1] {
            Some(t) => match chain[n - 1].edges_in(t) {
                Some(es) => (
                    true,
                    match published {
                        Some(name) => Some(name),
                        None => chain[n - 1].name_in(t),
                    },
                    edges + es,
                ),
                None => (matched, published, edges),
            },
            None => (matched, published, edges),
        }
    }
}

/// The node that a repo's manifests make, one per provider of the chain where
/// the repo has it; `None` where no provider recognizes any.
pub open spec fn node_of(
    repo: RepoRefView,
    chain: Seq<Provider>,
    texts: Seq<Option<Seq<char>>>,
) -> Option<NodeView> {
    let (matched, published, edges) = manifests_say(chain, texts, chain.len());
    if matched {
        Some(NodeView { repo, published, edges })
    } else {
        None
    }
}

/// Union edges across every manifest the repo has — a repo commonly carries both
/// MODULE.bazel and Cargo.toml (and sometimes package.json), and discovery wants
/// all of their external deps, not just the first match. The published name is
/// taken from the first provider that declares one (Bazel, then npm, then Cargo)
/// — its canonical registry artifact.
pub fn node_for(repo: RepoRef, chain: &ProviderChain, texts: &Vec<Option<String>>) -> (r: Option<
    RepoNode,
>)
    requires
        texts@.len() == chain@.len(),
    ensures
        r.deep_view() == node_of(repo.deep_view(), chain@, texts.deep_view()),
{
    let ghost tv = texts.deep_view();
    let providers = chain.providers();
    let mut edges: Vec<DepEdge> = Vec::new();
    let mut published: Option<String> = None;
    let mut matched = false;
    let mut i: usize = 0;
    assert(edges.deep_view() =~= seq![]);
    while i < providers.len()
        invariant
            tv == texts.deep_view(),
            providers@ == chain@,
            texts@.len() == chain@.len(),
            i <= providers@.len(),
            (matched, published.deep_view(), edges.deep_view()) == manifests_say(
                chain@,
                tv,
                i as nat,
            ),
        decreases providers@.len() - i,
    {
        let p = &providers[i];
        assert(tv[i as int] == texts@[i as int].deep_view());
        if let Some(t) = &texts[i] {
            if let Some(found) = p.parse_edges(t.as_str()) {
                let ghost all = edges.deep_view() + found.deep_view();
                let mut found = found;
                matched = true;
                if published.is_none() {
                    published = p.published_name(t.as_str());
                }
                edges.append(&mut found);
                assert(edges.deep_view() =~= all);
            }
        }
        i = i + 1;
    }
    if matched {
        Some(RepoNode { repo, published, edges })
    } else {
        None
    }
}

/// The nodes that the first `n` repos make, in order.
pub open spec fn nodes_of(
    forge: i32,
    specs: Seq<RepoSpecView>,
    host: Seq<char>,
    owner: Seq<char>,
    chain: Seq<Provider>,
    read: Seq<Option<Seq<Option<Seq<char>>>>>,
    n: nat,
) -> Seq<NodeView>
    decreases n,
{
    if n == 0 {
        seq![]
    } else {
        let init = nodes_of(forge, specs, host, owner, chain, read, (n - 1) as nat);
        let repo = RepoRefView { forge, host, owner, name: specs[n - 1].name };
        match read[n - 1] {
            Some(texts) => match node_of(repo, chain, texts) {
                Some(node) => init.push(node),
                None => init,
            },
            None => init,
        }
    }
}

/// Build graph nodes for `specs` from each repo's manifests, in order: one text
/// per provider of the chain, where the repo has that manifest; `None` for a repo
/// that could not be read. A repo whose manifest can't be read (or none of the
/// providers recognize) is skipped, not fatal — one bad repo shouldn't sink an
/// org scan.
pub fn assemble_nodes(
    forge: ForgeKind,
    specs: &Vec<RepoSpec>,
    host: &str,
    owner: &str,
    chain: &ProviderChain,
    read: &Vec<Option<Vec<Option<String>>>>,
) -> (r: Vec<RepoNode>)
    requires
        read@.len() == specs@.len(),
        forall|i: int|
            0 <= i < read@.len() ==> (#[trigger] read@[i] matches Some(texts) ==> texts@.len()
                == chain@.len()),
    ensures
        r.deep_view() == nodes_of(
            forge.number(),
            specs.deep_view(),
            host@,
            owner@,
            chain@,
            read.deep_view(),
            specs@.len(),
        ),
{
    let ghost sv = specs.deep_view();
    let ghost rv = read.deep_view();
    let number = forge.to_number();
    let mut out: Vec<RepoNode> = Vec::new();
    let mut i: usize = 0;
    assert(out.deep_view() =~= seq![]);
    while i < specs.len()
        invariant
            sv == specs.deep_view(),
            rv == read.deep_view(),
            number == forge.number(),
            read@.len() == specs@.len(),
            forall|i: int|
                0 <= i < read@.len() ==> (#[trigger] read@[i] matches Some(texts) ==> texts@.len()
                    == chain@.len()),
            i <= specs@.len(),
            out.deep_view() == nodes_of(number, sv, host@, owner@, chain@, rv, i as nat),
        decreases specs@.len() - i,
    {
        let ghost before = out.deep_view();
        let repo = RepoRef {
            forge: number,
            host: host.to_owned(),
            owner: owner.to_owned(),
            name: specs[i].name.clone(),
        };
        assert(rv[i as int] == read@[i as int].deep_view());
        assert(sv[i as int] == specs@[i as int].deep_view());
        if let Some(texts) = &read[i] {
            if let Some(node) = node_for(repo, chain, texts) {
                out.push(node);
                assert(out.deep_view() =~= before.push(node.deep_view()));
            }
        }
        i = i + 1;
    }
    out
}

// ─── what is scanned ────────────────────────────────────────────────────

/// The repo that counts, if it does: it is neither archived nor a fork.
pub open spec fn counting() -> spec_fn(GhRepoView) -> Option<RepoSpecView> {
    |r: GhRepoView|
        if !r.archived && !r.fork {
            Some(RepoSpecView { name: r.name })
        } else {
            None
        }
}

/// Of a page of repos just those count that are neither archived nor a fork, in order.
pub proof fn archived_and_forked_do_not_count(repos: Seq<GhRepoView>)
    ensures
        select::is_selection(repos, managed(repos), counting()),
    decreases repos.len(),
{
    if repos.len() == 0 {
        select::nothing_selected(repos, managed(repos), counting());
    } else {
        archived_and_forked_do_not_count(repos.drop_last());
        select::one_more_selected(
            repos.drop_last(),
            managed(repos.drop_last()),
            counting(),
            repos.last(),
        );
        assert(repos.drop_last().push(repos.last()) =~= repos);
    }
}

/// Does the provider at `k` recognize its manifest?
pub open spec fn recognizes(chain: Seq<Provider>, texts: Seq<Option<Seq<char>>>, k: int) -> bool {
    0 <= k < chain.len() && (texts[k] matches Some(t) && chain[k].edges_in(t) is Some)
}

/// Does the provider at `k` recognize its manifest, and does that publish `m`?
pub open spec fn declares_name(
    chain: Seq<Provider>,
    texts: Seq<Option<Seq<char>>>,
    k: int,
    m: Seq<char>,
) -> bool {
    recognizes(chain, texts, k) && chain[k].name_in(texts[k]->0) == Some(m)
}

/// The edges of each manifest that its provider recognizes.
pub open spec fn recognized_edges(chain: Seq<Provider>, texts: Seq<Option<Seq<char>>>, n: nat) -> Seq<
    Seq<DepEdgeView>,
> {
    Seq::new(
        n,
        |k: int|
            if recognizes(chain, texts, k) {
                chain[k].edges_in(texts[k]->0)->0
            } else {
                Seq::empty()
            },
    )
}

proof fn manifests_say_is(chain: Seq<Provider>, texts: Seq<Option<Seq<char>>>, n: nat)
    requires
        n <= chain.len(),
    ensures
        ({
            let (matched, published, edges) = manifests_say(chain, texts, n);
            &&& matched <==> exists|k: int| 0 <= k < n && #[trigger] recognizes(chain, texts, k)
            &&& published matches Some(m) ==> exists|k: int|
                0 <= k < n && #[trigger] declares_name(chain, texts, k, m) && forall|
                    j: int,
                    other: Seq<char>,
                | 0 <= j < k ==> !#[trigger] declares_name(chain, texts, j, other)
            &&& published is None ==> forall|j: int, other: Seq<char>|
                0 <= j < n ==> !#[trigger] declares_name(chain, texts, j, other)
            &&& edges == recognized_edges(chain, texts, n).flatten()
        }),
    decreases n,
{
    let rows = recognized_edges(chain, texts, n);
    if n == 0 {
        assert(rows =~= Seq::empty());
    } else {
        let l: int = n - 1;
        manifests_say_is(chain, texts, l as nat);
        let before = recognized_edges(chain, texts, l as nat);
        let (matched, published, edges) = manifests_say(chain, texts, l as nat);
        assert(rows =~= before.push(rows[l]));
        before.lemma_flatten_push(rows[l]);
        if let Some(m) = published {
            let k = choose|k: int|
                0 <= k < l && #[trigger] declares_name(chain, texts, k, m) && forall|
                    j: int,
                    other: Seq<char>,
                | 0 <= j < k ==> !#[trigger] declares_name(chain, texts, j, other);
            assert(declares_name(chain, texts, k, m));
        } else if recognizes(chain, texts, l) {
            if let Some(m) = chain[l].name_in(texts[l]->0) {
                assert(declares_name(chain, texts, l, m));
            }
        }
        if matched {
            let k = choose|k: int| 0 <= k < l && #[trigger] recognizes(chain, texts, k);
            assert(recognizes(chain, texts, k));
        }
        if !recognizes(chain, texts, l) {
            assert(rows[l] =~= Seq::empty());
            assert(edges + rows[l] =~= edges);
        }
        assert(manifests_say(chain, texts, n).2 =~= edges + rows[l]);
    }
}

/// The node of a repo: there is one where some provider recognizes its manifest; it has
/// the edges of every manifest that is recognized, in the order of the chain; and it
/// publishes what the first of those that declares a name declares.
pub proof fn node_joins_all_manifests(
    repo: RepoRefView,
    chain: Seq<Provider>,
    texts: Seq<Option<Seq<char>>>,
)
    ensures
        node_of(repo, chain, texts) is Some <==> exists|k: int| #[trigger]
            recognizes(chain, texts, k),
        node_of(repo, chain, texts) matches Some(n) ==> n.repo == repo,
        node_of(repo, chain, texts) matches Some(n) ==> n.edges == recognized_edges(
            chain,
            texts,
            chain.len(),
        ).flatten(),
        node_of(repo, chain, texts) matches Some(n) ==> (n.published matches Some(m)
            ==> exists|k: int| #[trigger]
            declares_name(chain, texts, k, m) && forall|j: int, other: Seq<char>|
                0 <= j < k ==> !#[trigger] declares_name(chain, texts, j, other)),
        node_of(repo, chain, texts) matches Some(n) ==> (n.published is None ==> forall|
            j: int,
            other: Seq<char>,
        | !#[trigger] declares_name(chain, texts, j, other)),
{
    manifests_say_is(chain, texts, chain.len());
    let (matched, published, edges) = manifests_say(chain, texts, chain.len());
    if let Some(m) = published {
        let k = choose|k: int|
            0 <= k < chain.len() && #[trigger] declares_name(chain, texts, k, m) && forall|
                j: int,
                other: Seq<char>,
            | 0 <= j < k ==> !#[trigger] declares_name(chain, texts, j, other);
        assert(declares_name(chain, texts, k, m));
    }
}

/// The node that the repo at each place makes, if it could be read and makes one.
pub open spec fn node_making(
    forge: i32,
    specs: Seq<RepoSpecView>,
    host: Seq<char>,
    owner: Seq<char>,
    chain: Seq<Provider>,
    read: Seq<Option<Seq<Option<Seq<char>>>>>,
) -> spec_fn(int) -> Option<NodeView> {
    |i: int|
        match read[i] {
            Some(texts) => node_of(
                RepoRefView { forge, host, owner, name: specs[i].name },
                chain,
                texts,
            ),
            None => None,
        }
}

/// A scan has one node for each repo that could be read and whose manifests make one, in
/// order; a repo that is not fit costs only itself.
pub proof fn one_bad_repo_costs_only_itself(
    forge: i32,
    specs: Seq<RepoSpecView>,
    host: Seq<char>,
    owner: Seq<char>,
    chain: Seq<Provider>,
    read: Seq<Option<Seq<Option<Seq<char>>>>>,
    n: nat,
)
    ensures
        select::is_selection(
            Seq::new(n, |i: int| i),
            nodes_of(forge, specs, host, owner, chain, read, n),
            node_making(forge, specs, host, owner, chain, read),
        ),
    decreases n,
{
    let pick = node_making(forge, specs, host, owner, chain, read);
    let places = Seq::new(n, |i: int| i);
    let out = nodes_of(forge, specs, host, owner, chain, read, n);
    if n == 0 {
        select::nothing_selected(places, out, pick);
    } else {
        let l: int = n - 1;
        let init = Seq::new(l as nat, |i: int| i);
        one_bad_repo_costs_only_itself(forge, specs, host, owner, chain, read, l as nat);
        select::one_more_selected(
            init,
            nodes_of(forge, specs, host, owner, chain, read, l as nat),
            pick,
            l,
        );
        assert(init.push(l) =~= places);
    }
}

proof fn digits_are_their_value(s: Seq<char>)
    ensures
        (forall|i: int| 0 <= i < s.len() ==> '0' <= #[trigger] s[i] <= '9') <==> digits_value(s)
            is Some,
        digits_value(s) matches Some(n) ==> n == text::digits_stand_for(s),
    decreases s.len(),
{
    if s.len() > 0 {
        let init = s.drop_last();
        digits_are_their_value(init);
        assert(s[s.len() - 1] == s.last());
        if forall|i: int| 0 <= i < s.len() ==> '0' <= #[trigger] s[i] <= '9' {
            assert forall|i: int| 0 <= i < init.len() implies '0' <= #[trigger] init[i] <= '9' by {
                assert(s[i] == init[i]);
            }
        }
        if digits_value(s) is Some {
            assert forall|i: int| 0 <= i < s.len() implies '0' <= #[trigger] s[i] <= '9' by {
                if i < init.len() {
                    assert(init[i] == s[i]);
                }
            }
        }
    }
}

/// The page that a header names is the page that is asked for next, and page 0 is none.
pub proof fn named_page_follows(n: u32)
    ensures
        n > 0 ==> page_after(text::decimal(n as nat)) == Some(n),
        page_after(text::decimal(0)) is None,
        page_after(seq![]) is None,
{
    let s = text::decimal(n as nat);
    text::decimal_stands_for_its_number(n as nat);
    text::decimal_stands_for_its_number(0);
    digits_are_their_value(s);
    digits_are_their_value(text::decimal(0));
}

/// A header that is no number of one or more digits, perhaps behind a `+`, names no page.
pub proof fn other_headers_name_no_page(header: Seq<char>, i: int)
    requires
        0 <= i < header.len(),
        !('0' <= header[i] <= '9'),
        i > 0 || header[0] != '+' || header.len() == 1,
    ensures
        page_after(header) is None,
{
    let digits = if header.len() > 0 && header[0] == '+' {
        header.skip(1)
    } else {
        header
    };
    digits_are_their_value(digits);
    if header[0] == '+' {
        if i > 0 {
            assert(digits[i - 1] == header[i]);
        }
    } else {
        assert(digits[i] == header[i]);
    }
}

/// Where the pages of a group's projects are: at its host, archived projects left out and
/// subgroups counted in; the page asked for is the last thing in the address.
pub proof fn gitlab_pages_are_at_the_host(host: Seq<char>, group: Seq<char>, page: nat)
    ensures
        gitlab_page(host, group, page) == "https://"@ + host + "/api/v4/groups/"@ + group
            + "/projects?include_subgroups=true&archived=false&per_page=100&page="@
            + text::decimal(page),
{
}

/// Where the pages of an organisation's repos are: at the public API for github.com, and
/// under the host's own otherwise; the page asked for is the last thing in the address.
pub proof fn github_pages_are_at_the_api(host: Seq<char>, org: Seq<char>, page: nat)
    ensures
        host == "github.com"@ || host.len() == 0 ==> github_page(host, org, page)
            == "https://api.github.com"@ + "/orgs/"@ + org + "/repos?per_page=100&page="@
            + text::decimal(page),
        host != "github.com"@ && host.len() > 0 ==> github_page(host, org, page) == "https://"@
            + host + "/api/v3"@ + "/orgs/"@ + org + "/repos?per_page=100&page="@ + text::decimal(
            page,
        ),
{
}

// ─── the urlencoding crate ──────────────────────────────────────────────

/// May the byte stand in a URL as it is?
pub open spec fn is_unreserved(b: u8) -> bool {
    ||| '0' as u8 <= b <= '9' as u8
    ||| 'A' as u8 <= b <= 'Z' as u8
    ||| 'a' as u8 <= b <= 'z' as u8
    ||| b == '-' as u8
    ||| b == '.' as u8
    ||| b == '_' as u8
    ||| b == '~' as u8
}

/// The hexadecimal digit of `d`.
pub open spec fn hex_digit(d: u8) -> char {
    if d < 10 {
        (d + '0' as u8) as char
    } else {
        (d - 10 + 'A' as u8) as char
    }
}

/// The bytes with each that may not stand in a URL written as `%` and its two
/// hexadecimal digits.
pub open spec fn percent_encoded(bytes: Seq<u8>) -> Seq<char>
    decreases bytes.len(),
{
    if bytes.len() == 0 {
        seq![]
    } else {
        let b = bytes.last();
        percent_encoded(bytes.drop_last()) + (if is_unreserved(b) {
            seq![b as char]
        } else {
            seq!['%', hex_digit(b / 16), hex_digit(b % 16)]
        })
    }
}

/// `urlencoding::encode`: the bytes of the text are [`percent_encoded`].
#[verifier::external_body]
fn percent_encode(s: &str) -> (r: String)
    ensures
        r@ == percent_encoded(utf8::encode_utf8(s@)),
{
    urlencoding::encode(s).into_owned()
}

} // verus!
