//! Registry datasources: which URL answers for a package, and what an answer
//! says. The requests themselves are made outside the library.
use vstd::prelude::*;
use vstd::string::*;
use vstd::utf8;

use crate::discover::{VersionInfo, VersionInfoView};
use crate::edge::{self, EdgeKind};
use crate::pattern::{self, slice};
use crate::sort::{self, Ranked};
use crate::text::{self, chars_of, starts_with, text_of, trim};
use crate::version::{self, Version, VersionView};

verus! {

// ─── npm ────────────────────────────────────────────────────────────────

/// One `@scope:registry=…` override, with the token that authorizes it.
#[derive(Debug, PartialEq, Eq)]
pub struct ScopeRegistry {
    /// Scope prefix including the trailing slash (e.g. `@aion/`).
    pub prefix: String,
    /// Registry base URL (no trailing slash).
    pub registry: String,
    /// GitLab PAT (`read_api`) sent as `PRIVATE-TOKEN`, when the registry needs one.
    pub token: Option<String>,
}

/// What a [`ScopeRegistry`] says.
pub struct ScopeRegistryView {
    pub prefix: Seq<char>,
    pub registry: Seq<char>,
    pub token: Option<Seq<char>>,
}

impl DeepView for ScopeRegistry {
    type V = ScopeRegistryView;

    open spec fn deep_view(&self) -> ScopeRegistryView {
        ScopeRegistryView {
            prefix: self.prefix@,
            registry: self.registry@,
            token: self.token.deep_view(),
        }
    }
}

/// Longest prefix first, so a more specific scope override wins.
impl Ranked for ScopeRegistry {
    open spec fn before(a: ScopeRegistryView, b: ScopeRegistryView) -> bool {
        pattern::byte_len(a.prefix) > pattern::byte_len(b.prefix)
    }

    proof fn before_is_asymmetric(a: ScopeRegistryView, b: ScopeRegistryView) {
    }

    proof fn not_before_is_transitive(
        a: ScopeRegistryView,
        b: ScopeRegistryView,
        c: ScopeRegistryView,
    ) {
    }

    fn precedes(&self, other: &Self) -> (r: bool) {
        self.prefix.as_str().as_bytes().len() > other.prefix.as_str().as_bytes().len()
    }
}

/// An npm registry — reads `dist-tags.latest` from a package's (abbreviated)
/// packument.
///
/// Defaults to the public registry. Scope overrides mirror `.npmrc`'s own
/// `@scope:registry=…` model, so a first-party scope can resolve from a private
/// registry: GitLab's group npm endpoint
/// (`/api/v4/groups/<id>/-/packages/npm/`) is packument-compatible, serving the
/// same `dist-tags`, so it needs only a base URL + a token — no separate
/// datasource. Scope routing (rather than a second `EdgeKind::Npm` datasource)
/// is required because discovery picks a datasource by kind alone, so a second
/// npm datasource would shadow this one for *every* package.
#[derive(Debug, PartialEq, Eq)]
pub struct NpmDatasource {
    /// Registry base URL (no trailing slash). Default: `https://registry.npmjs.org`.
    registry: String,
    /// Per-scope registry overrides, longest-prefix-first.
    scopes: Vec<ScopeRegistry>,
}

/// What an [`NpmDatasource`] says.
pub struct NpmDatasourceView {
    pub registry: Seq<char>,
    pub scopes: Seq<ScopeRegistryView>,
}

impl DeepView for NpmDatasource {
    type V = NpmDatasourceView;

    closed spec fn deep_view(&self) -> NpmDatasourceView {
        NpmDatasourceView { registry: self.registry@, scopes: self.scopes.deep_view() }
    }
}

/// `s` without its trailing slashes.
pub open spec fn without_slashes(s: Seq<char>) -> Seq<char>
    decreases s.len(),
{
    if s.len() > 0 && s.last() == '/' {
        without_slashes(s.drop_last())
    } else {
        s
    }
}

/// A scope prefix that ends in a slash, so `@aion` and `@aion/` behave alike (and
/// `@aion` can never match `@aion-other/…`).
pub open spec fn scope_prefix(s: Seq<char>) -> Seq<char> {
    if s.len() > 0 && s.last() == '/' {
        s
    } else {
        s.push('/')
    }
}

/// The first override for `package`.
pub open spec fn scope_for(scopes: Seq<ScopeRegistryView>, package: Seq<char>) -> Option<
    ScopeRegistryView,
>
    decreases scopes.len(),
{
    if scopes.len() == 0 {
        None
    } else if scopes[0].prefix.is_prefix_of(package) {
        Some(scopes[0])
    } else {
        scope_for(scopes.skip(1), package)
    }
}

impl NpmDatasourceView {
    /// The public registry.
    pub open spec fn public() -> NpmDatasourceView {
        NpmDatasourceView { registry: "https://registry.npmjs.org"@, scopes: seq![] }
    }

    /// With one more override, the longest prefix first.
    pub open spec fn with_scope(
        self,
        prefix: Seq<char>,
        registry: Seq<char>,
        token: Option<Seq<char>>,
    ) -> NpmDatasourceView {
        NpmDatasourceView {
            registry: self.registry,
            scopes: sort::sorted::<ScopeRegistry>(
                self.scopes.push(
                    ScopeRegistryView {
                        prefix: scope_prefix(prefix),
                        registry: without_slashes(registry),
                        token,
                    },
                ),
            ),
        }
    }

    /// The registry + token that should serve `package`.
    pub open spec fn route(self, package: Seq<char>) -> (Seq<char>, Option<Seq<char>>) {
        match scope_for(self.scopes, package) {
            Some(s) => (s.registry, s.token),
            None => (self.registry, None),
        }
    }
}

/// The first `/` of `s` percent-encoded.
pub open spec fn slash_encoded(s: Seq<char>) -> Seq<char>
    decreases s.len(),
{
    if s.len() == 0 {
        s
    } else if s[0] == '/' {
        "%2F"@ + s.skip(1)
    } else {
        seq![s[0]] + slash_encoded(s.skip(1))
    }
}

/// The path of a package's packument: scoped names (`@scope/name`) percent-encode
/// their slash, bare names pass through.
pub open spec fn packument_path(package: Seq<char>) -> Seq<char> {
    if package.len() > 0 && package[0] == '@' {
        slash_encoded(package)
    } else {
        package
    }
}

/// The path of a package's packument.
fn packument_path_of(package: &str) -> (r: String)
    ensures
        r@ == packument_path(package@),
{
    let v = chars_of(package);
    if v.len() == 0 || v[0] != '@' {
        return package.to_owned();
    }
    let ghost s = package@;
    let mut i: usize = 0;
    assert(s.take(0) + slash_encoded(s.skip(0)) =~= slash_encoded(s)) by {
        assert(s.skip(0) =~= s);
    }
    while i < v.len()
        invariant
            v@ == s,
            s == package@,
            i <= v@.len(),
            s.len() > 0 && s[0] == '@',
            slash_encoded(s) == s.take(i as int) + slash_encoded(s.skip(i as int)),
        decreases v@.len() - i,
    {
        let ghost rest = s.skip(i as int);
        if v[i] == '/' {
            let mut out = text_of(&v, 0, i);
            out.append("%2F");
            let tail = text_of(&v, i + 1, v.len());
            out.append(tail.as_str());
            proof {
                assert(rest.skip(1) =~= s.subrange(i + 1, s.len() as int));
                assert(s.subrange(0, i as int) =~= s.take(i as int));
                assert(out@ =~= s.take(i as int) + ("%2F"@ + rest.skip(1)));
            }
            return out;
        }
        assert(rest.skip(1) =~= s.skip(i + 1));
        assert(s.take(i as int) + (seq![rest[0]] + slash_encoded(rest.skip(1))) =~= s.take(i + 1)
            + slash_encoded(s.skip(i + 1)));
        i = i + 1;
    }
    assert(s.take(i as int) + slash_encoded(s.skip(i as int)) =~= s);
    package.to_owned()
}

impl NpmDatasource {
    pub fn new() -> (r: Self)
        ensures
            r.deep_view() == NpmDatasourceView::public(),
    {
        let scopes: Vec<ScopeRegistry> = Vec::new();
        assert(scopes.deep_view() =~= seq![]);
        NpmDatasource { registry: "https://registry.npmjs.org".to_owned(), scopes }
    }

    /// The edge kind this datasource resolves.
    pub fn kind(&self) -> (r: EdgeKind)
        ensures
            r == EdgeKind::Npm,
    {
        EdgeKind::Npm
    }

    /// Route `prefix`-scoped packages at `registry` instead of the default.
    /// `prefix` is normalized to end in `/` so `@aion` and `@aion/` behave alike
    /// (and `@aion` can never match `@aion-other/…`).
    pub fn with_scope(self, prefix: &str, registry: &str, token: Option<String>) -> (r: Self)
        ensures
            r.deep_view() == self.deep_view().with_scope(prefix@, registry@, token.deep_view()),
    {
        let p = chars_of(prefix);
        let mut prefix_text = prefix.to_owned();
        if p.len() == 0 || p[p.len() - 1] != '/' {
            prefix_text.push('/');
        }
        let v = chars_of(registry);
        let mut n: usize = v.len();
        assert(v@.take(n as int) =~= v@);
        while n > 0 && v[n - 1] == '/'
            invariant
                v@ == registry@,
                n <= v@.len(),
                without_slashes(registry@) == without_slashes(registry@.take(n as int)),
            decreases n,
        {
            assert(registry@.take(n as int).drop_last() =~= registry@.take(n - 1));
            n = n - 1;
        }
        let registry_text = text_of(&v, 0, n);
        assert(registry_text@ =~= registry@.take(n as int));
        let one = ScopeRegistry { prefix: prefix_text, registry: registry_text, token };
        let mut scopes = self.scopes;
        let ghost before = scopes.deep_view();
        scopes.push(one);
        assert(scopes.deep_view() =~= before.push(one.deep_view()));
        NpmDatasource { registry: self.registry, scopes: sort::sort(scopes) }
    }

    /// The registry + token that should serve `package`.
    pub fn route(&self, package: &str) -> (r: (&String, Option<&String>))
        ensures
            (r.0@, r.1.deep_view()) == self.deep_view().route(package@),
    {
        let ghost sv = self.scopes.deep_view();
        let mut i: usize = 0;
        assert(sv.skip(0) =~= sv);
        while i < self.scopes.len()
            invariant
                sv == self.scopes.deep_view(),
                sv == self.deep_view().scopes,
                i <= self.scopes@.len() == sv.len(),
                scope_for(sv, package@) == scope_for(sv.skip(i as int), package@),
            decreases self.scopes@.len() - i,
        {
            assert(sv.skip(i as int)[0] == self.scopes@[i as int].deep_view());
            if starts_with(package, self.scopes[i].prefix.as_str()) {
                let token = match &self.scopes[i].token {
                    Some(t) => Some(t),
                    None => None,
                };
                return (&self.scopes[i].registry, token);
            }
            assert(sv.skip(i as int).skip(1) =~= sv.skip(i + 1));
            i = i + 1;
        }
        (&self.registry, None)
    }

    /// Where a package's packument is, and the token that authorizes reading it.
    pub fn packument_url(&self, package: &str) -> (r: (String, Option<String>))
        ensures
            r.0@ == self.deep_view().route(package@).0 + "/"@ + packument_path(package@),
            r.1.deep_view() == self.deep_view().route(package@).1,
    {
        let (registry, token) = self.route(package);
        let mut url = registry.clone();
        url.append("/");
        let path = packument_path_of(package);
        url.append(path.as_str());
        let token = match token {
            Some(t) => Some(t.clone()),
            None => None,
        };
        (url, token)
    }
}

/// What a packument's `dist-tags.latest` says.
pub fn packument_latest(latest: Option<String>) -> (r: Option<VersionInfo>)
    ensures
        r.deep_view() == (match latest.deep_view() {
            Some(version) => Some(
                VersionInfoView { version, digest: None, released_at: None },
            ),
            None => None,
        }),
{
    match latest {
        Some(version) => Some(VersionInfo { version, digest: None, released_at: None }),
        None => None,
    }
}

/// The more specific override wins: the one that serves a package has the longest
/// of the prefixes that match it.
pub proof fn longest_scope_wins(
    scopes: Seq<ScopeRegistryView>,
    package: Seq<char>,
    i: int,
)
    requires
        sort::in_order::<ScopeRegistry>(scopes),
        0 <= i < scopes.len(),
        scopes[i].prefix.is_prefix_of(package),
    ensures
        scope_for(scopes, package) matches Some(s) && s.prefix.is_prefix_of(package)
            && pattern::byte_len(s.prefix) >= pattern::byte_len(scopes[i].prefix),
    decreases scopes.len(),
{
    if scopes[0].prefix.is_prefix_of(package) {
        if i > 0 {
            assert(!ScopeRegistry::before(scopes[i], scopes[0]));
        }
    } else {
        let tail = scopes.skip(1);
        assert forall|a: int, b: int|
            #![trigger tail[a], tail[b]]
            0 <= a < b < tail.len() implies !ScopeRegistry::before(tail[b], tail[a]) by {
            assert(!ScopeRegistry::before(scopes[b + 1], scopes[a + 1]));
        }
        assert(tail[i - 1] == scopes[i]);
        longest_scope_wins(tail, package, i - 1);
    }
}

/// A datasource's overrides are kept longest prefix first.
pub proof fn scopes_stay_in_order(
    d: NpmDatasourceView,
    prefix: Seq<char>,
    registry: Seq<char>,
    token: Option<Seq<char>>,
)
    ensures
        sort::in_order::<ScopeRegistry>(d.with_scope(prefix, registry, token).scopes),
        sort::in_order::<ScopeRegistry>(NpmDatasourceView::public().scopes),
{
    sort::sorted_is_in_order::<ScopeRegistry>(
        d.scopes.push(
            ScopeRegistryView {
                prefix: scope_prefix(prefix),
                registry: without_slashes(registry),
                token,
            },
        ),
    );
}

// ─── crates.io ──────────────────────────────────────────────────────────

/// crates.io via the **sparse index** (`index.crates.io`) — static per-crate
/// files, no rate limit (the API would throttle a fleet of concurrent polls).
/// Each line is one published version; the latest non-yanked stable wins.
#[derive(Debug, PartialEq, Eq)]
pub struct CargoDatasource {
    /// Sparse-index base URL (no trailing slash). Default: `https://index.crates.io`.
    index: String,
}

impl DeepView for CargoDatasource {
    type V = Seq<char>;

    closed spec fn deep_view(&self) -> Seq<char> {
        self.index@
    }
}

/// The sparse-index path for the lowercased name `n`: `1/{n}`, `2/{n}`,
/// `3/{a}/{n}`, else `{ab}/{cd}/{n}`. `None` where a shard would cut a character
/// in two.
pub open spec fn shard_path(n: Seq<char>) -> Option<Seq<char>> {
    let len = pattern::byte_len(n);
    if len == 0 {
        Some(n)
    } else if len == 1 {
        Some("1/"@ + n)
    } else if len == 2 {
        Some("2/"@ + n)
    } else if len == 3 {
        if pattern::is_cut(n, 1) {
            Some("3/"@ + pattern::piece(n, 0, 1) + "/"@ + n)
        } else {
            None
        }
    } else if pattern::is_cut(n, 2) && pattern::is_cut(n, 4) {
        Some(pattern::piece(n, 0, 2) + "/"@ + pattern::piece(n, 2, 4) + "/"@ + n)
    } else {
        None
    }
}

/// The sparse-index path for a lowercased name.
pub fn shard_path_of(n: &str) -> (r: Option<String>)
    ensures
        r.deep_view() == shard_path(n@),
{
    proof {
        pattern::whole_piece(n@);
    }
    let len: usize = n.as_bytes().len();
    if len == 0 {
        return Some(n.to_owned());
    }
    if len == 1 {
        let mut out = "1/".to_owned();
        out.append(n);
        return Some(out);
    }
    if len == 2 {
        let mut out = "2/".to_owned();
        out.append(n);
        return Some(out);
    }
    if len == 3 {
        if !n.is_char_boundary(1) {
            return None;
        }
        let mut out = "3/".to_owned();
        let a = slice(n, (0, 1));
        out.append(a.as_str());
        out.append("/");
        out.append(n);
        return Some(out);
    }
    if !n.is_char_boundary(2) || !n.is_char_boundary(4) {
        return None;
    }
    let mut out = slice(n, (0, 2));
    out.append("/");
    let b = slice(n, (2, 4));
    out.append(b.as_str());
    out.append("/");
    out.append(n);
    Some(out)
}

/// One published version, as a line of the index says it.
#[derive(Debug, PartialEq, Eq)]
pub struct CrateVersionRow {
    pub vers: String,
    pub yanked: bool,
}

/// What a [`CrateVersionRow`] says.
pub struct CrateVersionRowView {
    pub vers: Seq<char>,
    pub yanked: bool,
}

impl DeepView for CrateVersionRow {
    type V = CrateVersionRowView;

    open spec fn deep_view(&self) -> CrateVersionRowView {
        CrateVersionRowView { vers: self.vers@, yanked: self.yanked }
    }
}

impl CrateVersionRowView {
    /// The version that the row offers: a stable one that is not yanked.
    pub open spec fn offer(self) -> Option<VersionView> {
        if self.yanked {
            None
        } else {
            match version::version_of(self.vers) {
                Some(v) => if v.pre.len() == 0 {
                    Some(v)
                } else {
                    None
                },
                None => None,
            }
        }
    }
}

/// The highest version that the rows offer; the first of equals.
pub open spec fn best_offer(rows: Seq<CrateVersionRowView>) -> Option<VersionView>
    decreases rows.len(),
{
    if rows.len() == 0 {
        None
    } else {
        match (best_offer(rows.drop_last()), rows.last().offer()) {
            (Some(best), Some(v)) => if edge::newer(v, best) {
                Some(v)
            } else {
                Some(best)
            },
            (None, Some(v)) => Some(v),
            (best, None) => best,
        }
    }
}

/// The version that the row offers.
fn offer_of(row: &CrateVersionRow) -> (r: Option<Version>)
    ensures
        r.deep_view() == row.deep_view().offer(),
{
    if row.yanked {
        return None;
    }
    match Version::parse(row.vers.as_str()) {
        Some(v) => {
            if v.is_stable() {
                Some(v)
            } else {
                None
            }
        },
        None => None,
    }
}

/// Pick the max non-yanked stable semver. (Discovery also filters prerelease, but
/// skipping them here keeps the "latest" honest.) No row offers a higher version,
/// and there is none exactly where no row offers one.
pub fn latest_of_rows(rows: &Vec<CrateVersionRow>) -> (r: Option<VersionInfo>)
    ensures
        r.deep_view() == (match best_offer(rows.deep_view()) {
            Some(v) => Some(
                VersionInfoView { version: v.text(), digest: None, released_at: None },
            ),
            None => None,
        }),
        forall|i: int|
            0 <= i < rows@.len() ==> ((#[trigger] rows.deep_view()[i]).offer() matches Some(v)
                ==> best_offer(rows.deep_view()) matches Some(best) && (v == best
                || version::version_precedence(best, v) !is Lower) && !best.release_lt(v)),
        best_offer(rows.deep_view()) matches Some(best) ==> exists|i: int|
            0 <= i < rows@.len() && (#[trigger] rows.deep_view()[i]).offer() == Some(best),
        forall|i: int, v: VersionView|
            0 <= i < rows@.len() && #[trigger] is_offered(rows.deep_view()[i], v)
                ==> best_offer(rows.deep_view()) is Some && !best_offer(
                rows.deep_view(),
            )->0.release_lt(v),
{
    let ghost rv = rows.deep_view();
    let mut best: Option<Version> = None;
    let mut i: usize = 0;
    assert(rv.take(0) =~= seq![]);
    while i < rows.len()
        invariant
            rv == rows.deep_view(),
            i <= rows@.len() == rv.len(),
            best.deep_view() == best_offer(rv.take(i as int)),
            forall|j: int|
                0 <= j < i ==> ((#[trigger] rv[j]).offer() matches Some(v)
                    ==> best_offer(rv.take(i as int)) matches Some(b) && v.valid() && (v == b
                    || version::version_precedence(b, v) !is Lower) && !b.release_lt(v)),
            best_offer(rv.take(i as int)) matches Some(b) ==> exists|j: int|
                0 <= j < i && (#[trigger] rv[j]).offer() == Some(b),
        decreases rows@.len() - i,
    {
        let ghost before = best.deep_view();
        proof {
            assert(rv.take(i + 1).drop_last() =~= rv.take(i as int));
            assert(rv.take(i + 1).last() == rv[i as int]);
            assert(rv[i as int] == rows@[i as int].deep_view());
        }
        if let Some(v) = offer_of(&rows[i]) {
            let better = match &best {
                Some(b) => v.exceeds(b),
                None => true,
            };
            if better {
                best = Some(v);
            }
        }
        i = i + 1;
    }
    assert(rv.take(rv.len() as int) =~= rv);
    assert forall|i: int, v: VersionView|
        0 <= i < rows@.len() && #[trigger] is_offered(rv[i], v) implies best_offer(rv) is Some
        && !best_offer(rv)->0.release_lt(v) by {
        assert(rv[i].offer() == Some(v));
    }
    match best {
        Some(v) => Some(VersionInfo { version: v.to_text(), digest: None, released_at: None }),
        None => None,
    }
}

/// The lines of `s` from `i` on that hold more than white space, trimmed.
pub open spec fn ink_lines(s: Seq<char>, i: int) -> Seq<Seq<char>>
    decreases s.len() - i,
{
    if i < 0 || i >= s.len() {
        seq![]
    } else {
        let j = crate::provider::line_end(s, i);
        proof {
            crate::provider::line_end_bounds(s, i);
        }
        let line = text::trimmed(s.subrange(i, j));
        if line.len() > 0 {
            seq![line] + ink_lines(s, j)
        } else {
            ink_lines(s, j)
        }
    }
}

/// The rows of an index file, as text: its lines that hold more than white space,
/// trimmed.
pub fn index_lines(body: &str) -> (r: Vec<String>)
    ensures
        r.deep_view() == ink_lines(body@, 0),
{
    let v = chars_of(body);
    let ghost s = body@;
    let mut out: Vec<String> = Vec::new();
    let mut i: usize = 0;
    assert(out.deep_view() + ink_lines(s, 0) =~= ink_lines(s, 0));
    while i < v.len()
        invariant
            v@ == s,
            i <= v@.len(),
            ink_lines(s, 0) == out.deep_view() + ink_lines(s, i as int),
        decreases v@.len() - i,
    {
        let ghost before = out.deep_view();
        let j = crate::provider::find_line_end(&v, i);
        let line = text_of(&v, i, j);
        let line = trim(line.as_str());
        if !line.is_empty() {
            let ghost lv = line@;
            out.push(line);
            assert(out.deep_view() =~= before.push(lv));
            assert(before + (seq![lv] + ink_lines(s, j as int)) =~= out.deep_view() + ink_lines(
                s,
                j as int,
            ));
        }
        i = j;
    }
    assert(out.deep_view() + ink_lines(s, i as int) =~= out.deep_view());
    out
}

impl CargoDatasource {
    pub fn new() -> (r: Self)
        ensures
            r.deep_view() == "https://index.crates.io"@,
    {
        CargoDatasource { index: "https://index.crates.io".to_owned() }
    }

    /// The edge kind this datasource resolves.
    pub fn kind(&self) -> (r: EdgeKind)
        ensures
            r == EdgeKind::Cargo,
    {
        EdgeKind::Cargo
    }

    /// The sparse-index path for `name` (lowercased): `1/{n}`, `2/{n}`,
    /// `3/{a}/{n}`, else `{ab}/{cd}/{n}`. `None` where a shard would cut a
    /// character in two.
    pub fn index_path(name: &str) -> (r: Option<String>)
        ensures
            r.deep_view() == shard_path(lowercased(name@)),
    {
        let n = lower(name);
        shard_path_of(n.as_str())
    }

    /// Where a crate's index file is.
    pub fn index_url(&self, name: &str) -> (r: Option<String>)
        ensures
            r.deep_view() == (match shard_path(lowercased(name@)) {
                Some(path) => Some(self.deep_view() + "/"@ + path),
                None => None,
            }),
    {
        match Self::index_path(name) {
            Some(path) => {
                let mut url = self.index.clone();
                url.append("/");
                url.append(path.as_str());
                Some(url)
            },
            None => None,
        }
    }
}

// ─── std ────────────────────────────────────────────────────────────────

/// The lowercase of `s`, as `str::to_lowercase` makes it.
pub uninterp spec fn lowercased(s: Seq<char>) -> Seq<char>;

/// An ASCII character in lower case.
pub open spec fn ascii_lower(c: char) -> char {
    if 'A' <= c <= 'Z' {
        ((c as u32) + 32) as char
    } else {
        c
    }
}

/// `str::to_lowercase`: the result is [`lowercased`]. In an ASCII text, letters
/// become lower case one by one and everything else stays.
#[verifier::external_body]
fn lower(s: &str) -> (r: String)
    ensures
        r@ == lowercased(s@),
        utf8::is_ascii_chars(s@) ==> r@ == s@.map_values(|c: char| ascii_lower(c)),
{
    s.to_lowercase()
}

// ─── what is asked and answered ─────────────────────────────────────────

/// What is taken off a registry's address are the slashes at its end, and all of them.
pub proof fn only_end_slashes_go(s: Seq<char>, i: int)
    ensures
        without_slashes(s).is_prefix_of(s),
        without_slashes(s).len() <= i < s.len() ==> s[i] == '/',
        without_slashes(s).len() > 0 ==> without_slashes(s).last() != '/',
    decreases s.len(),
{
    if s.len() > 0 && s.last() == '/' {
        only_end_slashes_go(s.drop_last(), i);
        assert(without_slashes(s) =~= s.subrange(0, without_slashes(s).len() as int));
        if 0 <= i < s.len() - 1 {
            assert(s.drop_last()[i] == s[i]);
        }
    } else {
        assert(s =~= s.subrange(0, s.len() as int));
    }
}

/// Does the override at `i` serve `package`: does it match, and does no other one that
/// matches have a longer prefix?
pub open spec fn serves(d: NpmDatasourceView, package: Seq<char>, i: int) -> bool {
    &&& 0 <= i < d.scopes.len()
    &&& d.scopes[i].prefix.is_prefix_of(package)
    &&& forall|j: int|
        0 <= j < d.scopes.len() && (#[trigger] d.scopes[j]).prefix.is_prefix_of(package)
            ==> pattern::byte_len(d.scopes[j].prefix) <= pattern::byte_len(d.scopes[i].prefix)
}

proof fn scope_is_first(scopes: Seq<ScopeRegistryView>, package: Seq<char>)
    ensures
        scope_for(scopes, package) matches Some(s) ==> exists|i: int|
            0 <= i < scopes.len() && #[trigger] scopes[i] == s && s.prefix.is_prefix_of(package),
        scope_for(scopes, package) is None ==> forall|i: int|
            0 <= i < scopes.len() ==> !(#[trigger] scopes[i]).prefix.is_prefix_of(package),
    decreases scopes.len(),
{
    if scopes.len() > 0 && !scopes[0].prefix.is_prefix_of(package) {
        let tail = scopes.skip(1);
        scope_is_first(tail, package);
        if let Some(s) = scope_for(tail, package) {
            let i = choose|i: int|
                0 <= i < tail.len() && #[trigger] tail[i] == s && s.prefix.is_prefix_of(package);
            assert(scopes[i + 1] == s);
        } else {
            assert forall|i: int| 0 <= i < scopes.len() implies !(
            #[trigger] scopes[i]).prefix.is_prefix_of(package) by {
                if i > 0 {
                    assert(tail[i - 1] == scopes[i]);
                }
            }
        }
    }
}

/// A package is asked for where the longest override that matches it says, with that
/// override's token; and where none matches it, at the default registry without one.
pub proof fn packages_go_to_their_registry(d: NpmDatasourceView, package: Seq<char>)
    requires
        sort::in_order::<ScopeRegistry>(d.scopes),
    ensures
        (exists|i: int|
            0 <= i < d.scopes.len() && (#[trigger] d.scopes[i]).prefix.is_prefix_of(package))
            ==> exists|i: int| #[trigger]
            serves(d, package, i) && d.route(package) == (d.scopes[i].registry, d.scopes[i].token),
        (forall|i: int|
            0 <= i < d.scopes.len() ==> !(#[trigger] d.scopes[i]).prefix.is_prefix_of(package))
            ==> d.route(package) == (d.registry, None::<Seq<char>>),
{
    scope_is_first(d.scopes, package);
    if let Some(s) = scope_for(d.scopes, package) {
        let i = choose|i: int|
            0 <= i < d.scopes.len() && #[trigger] d.scopes[i] == s && s.prefix.is_prefix_of(
                package,
            );
        assert forall|j: int|
            0 <= j < d.scopes.len() && (#[trigger] d.scopes[j]).prefix.is_prefix_of(
                package,
            ) implies pattern::byte_len(d.scopes[j].prefix) <= pattern::byte_len(
            d.scopes[i].prefix,
        ) by {
            longest_scope_wins(d.scopes, package, j);
        }
        assert(serves(d, package, i));
    }
}

/// One more override leaves those that are there and the default registry as they are;
/// it has the prefix that was given, up to a slash at its end, and the token.
pub proof fn one_more_scope(
    d: NpmDatasourceView,
    prefix: Seq<char>,
    registry: Seq<char>,
    token: Option<Seq<char>>,
)
    ensures
        ({
            let e = d.with_scope(prefix, registry, token);
            &&& e.registry == d.registry
            &&& exists|s: ScopeRegistryView| #[trigger]
                is_scope_of(s, prefix, registry, token) && e.scopes.to_multiset()
                    == d.scopes.to_multiset().insert(s)
        }),
{
    broadcast use vstd::seq_lib::group_to_multiset_ensures;

    let s = ScopeRegistryView {
        prefix: scope_prefix(prefix),
        registry: without_slashes(registry),
        token,
    };
    sort::sorted_is_in_order::<ScopeRegistry>(d.scopes.push(s));
    if prefix.len() > 0 && prefix.last() == '/' {
        assert(prefix.drop_last().push('/') =~= prefix);
    }
    only_end_slashes_go(registry, 0);
    assert forall|i: int| s.registry.len() <= i < registry.len() implies #[trigger] registry[i]
        == '/' by {
        only_end_slashes_go(registry, i);
    }
    assert(is_scope_of(s, prefix, registry, token));
}

/// Is `s` the override for `prefix`? Its own prefix ends in a slash, which is there
/// once more only where the given one had none; its registry has no slash at its end.
pub open spec fn is_scope_of(
    s: ScopeRegistryView,
    prefix: Seq<char>,
    registry: Seq<char>,
    token: Option<Seq<char>>,
) -> bool {
    &&& s.prefix == prefix || s.prefix == prefix.push('/')
    &&& s.prefix.len() > 0 && s.prefix.last() == '/'
    &&& prefix.len() > 0 && prefix.last() == '/' ==> s.prefix == prefix
    &&& s.token == token
    &&& s.registry.is_prefix_of(registry)
    &&& forall|i: int| s.registry.len() <= i < registry.len() ==> #[trigger] registry[i] == '/'
    &&& s.registry.len() > 0 ==> s.registry.last() != '/'
}

proof fn slash_is_encoded(s: Seq<char>, i: int)
    ensures
        0 <= i < s.len() && s[i] == '/' && (forall|j: int| 0 <= j < i ==> #[trigger] s[j] != '/')
            ==> slash_encoded(s) == s.take(i) + "%2F"@ + s.skip(i + 1),
        (forall|j: int| 0 <= j < s.len() ==> #[trigger] s[j] != '/') ==> slash_encoded(s) == s,
    decreases s.len(),
{
    if s.len() > 0 && s[0] != '/' {
        let t = s.skip(1);
        slash_is_encoded(t, i - 1);
        if 0 <= i < s.len() && s[i] == '/' && (forall|j: int| 0 <= j < i ==> #[trigger] s[j]
            != '/') {
            assert forall|j: int| 0 <= j < i - 1 implies #[trigger] t[j] != '/' by {
                assert(s[j + 1] == t[j]);
            }
            assert(t[i - 1] == s[i]);
            assert(seq![s[0]] + (t.take(i - 1) + "%2F"@ + t.skip(i)) =~= s.take(i) + "%2F"@
                + s.skip(i + 1));
        }
        if forall|j: int| 0 <= j < s.len() ==> #[trigger] s[j] != '/' {
            assert forall|j: int| 0 <= j < t.len() implies #[trigger] t[j] != '/' by {
                assert(s[j + 1] == t[j]);
            }
            assert(seq![s[0]] + t =~= s);
        }
    } else if s.len() > 0 {
        if 0 <= i < s.len() && (forall|j: int| 0 <= j < i ==> #[trigger] s[j] != '/') {
            if i > 0 {
                assert(s[0] != '/');
            }
            assert(s.take(0) + "%2F"@ + s.skip(1) =~= "%2F"@ + s.skip(1));
        }
    }
}

/// The path of a packument is the package's name, but that in a scoped one the first
/// slash is encoded.
pub proof fn scoped_names_are_encoded(package: Seq<char>, i: int)
    ensures
        package.len() > 0 && package[0] == '@' && 0 <= i < package.len() && package[i] == '/' && (
        forall|j: int| 0 <= j < i ==> #[trigger] package[j] != '/') ==> packument_path(package)
            == package.take(i) + "%2F"@ + package.skip(i + 1),
        (forall|j: int| 0 <= j < package.len() ==> #[trigger] package[j] != '/')
            ==> packument_path(package) == package,
        package.len() == 0 || package[0] != '@' ==> packument_path(package) == package,
{
    slash_is_encoded(package, i);
}

/// The shard of an ASCII name: by its length where that is at most three, else by its
/// first two characters and the two behind them; the name itself stands last.
pub proof fn ascii_names_are_sharded(n: Seq<char>)
    requires
        utf8::is_ascii_chars(n),
    ensures
        n.len() == 0 ==> shard_path(n) == Some(n),
        n.len() == 1 ==> shard_path(n) == Some("1/"@ + n),
        n.len() == 2 ==> shard_path(n) == Some("2/"@ + n),
        n.len() == 3 ==> shard_path(n) == Some("3/"@ + n.take(1) + "/"@ + n),
        n.len() > 3 ==> shard_path(n) == Some(
            n.take(2) + "/"@ + n.subrange(2, 4) + "/"@ + n,
        ),
{
    utf8::is_ascii_chars_encode_utf8(n);
    if n.len() == 3 {
        ascii_piece(n, 0, 1);
        assert(n.subrange(0, 1) =~= n.take(1));
    }
    if n.len() > 3 {
        ascii_piece(n, 0, 2);
        ascii_piece(n, 2, 4);
        assert(n.subrange(0, 2) =~= n.take(2));
    }
}

proof fn ascii_piece(n: Seq<char>, a: int, b: int)
    requires
        utf8::is_ascii_chars(n),
        0 <= a <= b <= n.len(),
    ensures
        pattern::is_cut(n, a),
        pattern::is_cut(n, b),
        pattern::piece(n, a, b) == n.subrange(a, b),
{
    let bytes = utf8::encode_utf8(n);
    let part = n.subrange(a, b);
    utf8::is_ascii_chars_encode_utf8(n);
    utf8::is_ascii_chars_encode_utf8(part);
    utf8::encode_utf8_valid_utf8(n);
    utf8::is_char_boundary_start_end_of_seq(bytes);
    if a < n.len() {
        utf8::is_char_boundary_iff_not_is_continuation_byte(bytes, a);
    }
    if b < n.len() {
        utf8::is_char_boundary_iff_not_is_continuation_byte(bytes, b);
    }
    assert(bytes.subrange(a, b) =~= utf8::encode_utf8(part));
    utf8::encode_utf8_decode_utf8(part);
}

/// Is `v` on offer in the row: is the row not yanked, and is it for the release `v`?
pub open spec fn is_offered(row: CrateVersionRowView, v: VersionView) -> bool {
    !row.yanked && version::version_of(row.vers) == Some(v) && v.pre.len() == 0
}

/// The version that is taken of an index is on offer in one of its rows; there is one
/// just where some row has one on offer.
pub proof fn best_is_on_offer(rows: Seq<CrateVersionRowView>)
    ensures
        best_offer(rows) matches Some(b) ==> exists|i: int|
            0 <= i < rows.len() && is_offered(#[trigger] rows[i], b),
        best_offer(rows) is None ==> forall|i: int, v: VersionView|
            0 <= i < rows.len() ==> !#[trigger] is_offered(rows[i], v),
    decreases rows.len(),
{
    if rows.len() > 0 {
        let init = rows.drop_last();
        best_is_on_offer(init);
        assert(rows[rows.len() - 1] == rows.last());
        if let Some(b) = best_offer(init) {
            let i = choose|i: int| 0 <= i < init.len() && is_offered(#[trigger] init[i], b);
            assert(is_offered(rows[i], b));
        } else {
            assert forall|i: int, v: VersionView|
                0 <= i < init.len() implies !#[trigger] is_offered(rows[i], v) by {
                assert(!is_offered(init[i], v));
            }
        }
    }
}

/// What one more version on offer does: it is taken just where it is newer than what
/// was taken before it, or where nothing was.
pub proof fn newer_offer_is_taken(
    rows: Seq<CrateVersionRowView>,
    row: CrateVersionRowView,
    v: VersionView,
)
    ensures
        is_offered(row, v) && best_offer(rows) is None ==> best_offer(rows.push(row)) == Some(v),
        is_offered(row, v) ==> (best_offer(rows) matches Some(b) ==> best_offer(rows.push(row))
            == Some(
            if edge::newer(v, b) {
                v
            } else {
                b
            },
        )),
        (forall|w: VersionView| !#[trigger] is_offered(row, w)) ==> best_offer(rows.push(row))
            == best_offer(rows),
{
    let all = rows.push(row);
    assert(all.drop_last() =~= rows);
    assert(all.last() == row);
    if let Some(w) = row.offer() {
        assert(is_offered(row, w));
    }
}

proof fn line_end_moves(s: Seq<char>, i: int)
    requires
        0 <= i <= s.len(),
    ensures
        crate::provider::line_end(s.skip(i), 0) == crate::provider::line_end(s, i) - i,
    decreases s.len() - i,
{
    line_end_moves_by(s, i, 0);
}

proof fn line_end_moves_by(s: Seq<char>, i: int, k: int)
    requires
        0 <= i,
        0 <= k,
        i + k <= s.len(),
    ensures
        crate::provider::line_end(s.skip(i), k) == crate::provider::line_end(s, i + k) - i,
    decreases s.len() - i - k,
{
    if i + k < s.len() && s[i + k] != '\n' {
        line_end_moves_by(s, i, k + 1);
    }
}

proof fn ink_lines_move(s: Seq<char>, i: int, k: int)
    requires
        0 <= i,
        0 <= k,
        i + k <= s.len(),
    ensures
        ink_lines(s.skip(i), k) == ink_lines(s, i + k),
    decreases s.len() - i - k,
{
    if i + k < s.len() {
        let j = crate::provider::line_end(s.skip(i), k);
        line_end_moves_by(s, i, k);
        crate::provider::line_end_bounds(s, i + k);
        assert(s.skip(i).subrange(k, j) =~= s.subrange(i + k, i + j));
        ink_lines_move(s, i, j);
    }
}

proof fn line_end_is(s: Seq<char>, i: int, j: int)
    requires
        0 <= i <= j < s.len(),
        s[j] == '\n',
        forall|k: int| i <= k < j ==> #[trigger] s[k] != '\n',
    ensures
        crate::provider::line_end(s, i) == j + 1,
    decreases j - i,
{
    if i < j {
        line_end_is(s, i + 1, j);
    }
}

/// The rows of an index are its lines, one after the other, each without the white
/// space around it; a line of nothing but white space is none.
pub proof fn index_has_a_row_per_line(line: Seq<char>, rest: Seq<char>)
    requires
        !line.contains('\n'),
    ensures
        ({
            let row = text::trimmed(line.push('\n'));
            ink_lines(line.push('\n') + rest, 0) == (if text::is_blank(line) {
                ink_lines(rest, 0)
            } else {
                seq![row] + ink_lines(rest, 0)
            })
        }),
{
    let first = line.push('\n');
    let s = first + rest;
    assert forall|k: int| 0 <= k < line.len() implies #[trigger] s[k] != '\n' by {
        assert(line.contains(line[k]));
    }
    line_end_is(s, 0, line.len() as int);
    assert(s.subrange(0, first.len() as int) =~= first);
    assert(s.skip(first.len() as int) =~= rest);
    ink_lines_move(s, first.len() as int, 0);
    text::trimming_takes_the_white_ends(first);
    let (a, b) = choose|a: int, b: int| #[trigger]
        text::is_inked(first, a, b) && text::trimmed(first) == first.subrange(a, b);
    if text::is_blank(line) {
        if a < b {
            assert(!text::is_white_space(first[a]));
            if a < line.len() {
                assert(text::is_white_space(line[a]));
            }
        }
    } else if a == b {
        assert forall|k: int| 0 <= k < line.len() implies text::is_white_space(
            #[trigger] line[k],
        ) by {
            if k < a {
                assert(first.subrange(0, a)[k] == line[k]);
            } else {
                assert(first.subrange(b, first.len() as int)[k - b] == line[k]);
            }
        }
    }
}

/// The last line of an index needs no line break, and an empty index has no row.
pub proof fn last_row_needs_no_break(line: Seq<char>)
    requires
        !line.contains('\n'),
    ensures
        text::is_blank(line) ==> ink_lines(line, 0) == Seq::<Seq<char>>::empty(),
        !text::is_blank(line) ==> ink_lines(line, 0) == seq![text::trimmed(line)],
{
    if line.len() > 0 {
        last_line_end(line, 0);
        assert(line.subrange(0, line.len() as int) =~= line);
        text::trimming_takes_the_white_ends(line);
        let (a, b) = choose|a: int, b: int| #[trigger]
            text::is_inked(line, a, b) && text::trimmed(line) == line.subrange(a, b);
        if text::is_blank(line) {
            if a < b {
                assert(text::is_white_space(line[a]));
            }
        } else if a == b {
            assert forall|k: int| 0 <= k < line.len() implies text::is_white_space(
                #[trigger] line[k],
            ) by {
                if k < a {
                    assert(line.subrange(0, a)[k] == line[k]);
                } else {
                    assert(line.subrange(b, line.len() as int)[k - b] == line[k]);
                }
            }
        }
        reveal_with_fuel(ink_lines, 2);
        assert(ink_lines(line, line.len() as int) =~= seq![]);
    }
}

proof fn last_line_end(s: Seq<char>, i: int)
    requires
        0 <= i <= s.len(),
        !s.contains('\n'),
    ensures
        crate::provider::line_end(s, i) == s.len(),
    decreases s.len() - i,
{
    if i < s.len() {
        assert(s.contains(s[i]));
        last_line_end(s, i + 1);
    }
}

} // verus!
