//! What the command line decides: which forge, host and token to use, which
//! repos to look at, and which waves to drive.
use vstd::prelude::*;
use vstd::string::*;

use crate::discover::{DiscoverConfig, DiscoverConfigView};
use crate::enumerate::{RepoSpec, RepoSpecView};
use crate::forge::{ForgeKind, RepoRefView};
use crate::graph::repo_key;
use crate::open::{OpenOutcome, OpenOutcomeView};
use crate::pb::{self, WaveState, WaveView};
use crate::render::{self, quote};
use crate::select;
use crate::text::{self, chars_of, copy_texts, decimal_of, same_text, text_of};

verus! {

// ─── forge, host and token ──────────────────────────────────────────────

/// The forge that a `--forge` value names.
pub open spec fn forge_named(s: Seq<char>) -> Option<ForgeKind> {
    if s == "github"@ {
        Some(ForgeKind::Github)
    } else if s == "gitlab"@ {
        Some(ForgeKind::Gitlab)
    } else {
        None
    }
}

/// Parse a `--forge` value.
pub fn parse_forge_kind(s: &str) -> (r: Result<ForgeKind, String>)
    ensures
        match r {
            Ok(kind) => forge_named(s@) == Some(kind),
            Err(e) => forge_named(s@) is None && e@ == "unknown forge "@ + s@
                + " (use github|gitlab)"@,
        },
{
    if same_text(s, "github") {
        return Ok(ForgeKind::Github);
    }
    if same_text(s, "gitlab") {
        return Ok(ForgeKind::Gitlab);
    }
    let mut e = "unknown forge ".to_owned();
    e.append(s);
    e.append(" (use github|gitlab)");
    Err(e)
}

/// The effective host for `kind`: the given one, else the forge default.
pub open spec fn host_for(kind: ForgeKind, host: Seq<char>) -> Seq<char> {
    if host.len() > 0 {
        host
    } else if kind is Github {
        "github.com"@
    } else {
        "gitlab.com"@
    }
}

/// The effective host for `kind` (`host` empty → the forge default).
pub fn effective_host(kind: ForgeKind, host: &str) -> (r: String)
    ensures
        r@ == host_for(kind, host@),
{
    let given = host.to_owned();
    if !given.is_empty() {
        return given;
    }
    match kind {
        ForgeKind::Github => "github.com".to_owned(),
        _ => "gitlab.com".to_owned(),
    }
}

/// The environment variables that may hold the token for `kind`, the first one
/// first.
pub open spec fn token_names(kind: ForgeKind) -> Seq<Seq<char>> {
    match kind {
        ForgeKind::Gitlab => seq!["GITLAB_TOKEN"@, "FORGE_TOKEN"@],
        ForgeKind::Github => seq!["GITHUB_TOKEN"@, "FORGE_TOKEN"@],
        ForgeKind::Unspecified => seq!["FORGE_TOKEN"@],
    }
}

/// The environment variables that may hold the token for `kind`, the first one
/// first.
pub fn token_candidates(kind: ForgeKind) -> (r: Vec<String>)
    ensures
        r.deep_view() == token_names(kind),
{
    let mut out: Vec<String> = Vec::new();
    match kind {
        ForgeKind::Gitlab => {
            out.push("GITLAB_TOKEN".to_owned());
        },
        ForgeKind::Github => {
            out.push("GITHUB_TOKEN".to_owned());
        },
        ForgeKind::Unspecified => {},
    }
    out.push("FORGE_TOKEN".to_owned());
    assert(out.deep_view() =~= token_names(kind));
    out
}

/// The first of the values that is there and not empty.
pub open spec fn first_set(values: Seq<Option<Seq<char>>>) -> Option<Seq<char>>
    decreases values.len(),
{
    if values.len() == 0 {
        None
    } else {
        match values[0] {
            Some(v) => if v.len() > 0 {
                Some(v)
            } else {
                first_set(values.skip(1))
            },
            None => first_set(values.skip(1)),
        }
    }
}

/// The API token for `kind`, from the values of its [`token_candidates`]: the
/// first that is there and not empty.
pub fn pick_token(kind: ForgeKind, values: &Vec<Option<String>>) -> (r: Result<String, String>)
    ensures
        match r {
            Ok(t) => first_set(values.deep_view()) == Some(t@),
            Err(e) => first_set(values.deep_view()) is None && e@ == "no token in env — set "@
                + token_names(kind)[0] + " (or FORGE_TOKEN)"@,
        },
{
    let ghost vv = values.deep_view();
    let mut i: usize = 0;
    assert(vv.skip(0) =~= vv);
    while i < values.len()
        invariant
            vv == values.deep_view(),
            i <= values@.len() == vv.len(),
            first_set(vv) == first_set(vv.skip(i as int)),
        decreases values@.len() - i,
    {
        assert(vv.skip(i as int)[0] == values@[i as int].deep_view());
        if let Some(v) = &values[i] {
            if !v.is_empty() {
                return Ok(v.clone());
            }
        }
        assert(vv.skip(i as int).skip(1) =~= vv.skip(i + 1));
        i = i + 1;
    }
    let names = token_candidates(kind);
    let mut e = "no token in env — set ".to_owned();
    assert(names@.len() == token_names(kind).len());
    assert(names.deep_view()[0] == names@[0]@);
    e.append(names[0].as_str());
    e.append(" (or FORGE_TOKEN)");
    Err(e)
}

// ─── arguments ──────────────────────────────────────────────────────────

/// What to cascade, and where.
#[derive(Debug)]
pub struct PlanArgs {
    /// The module/package that published a new version.
    pub module: String,
    /// The new version to cascade.
    pub target: String,
    /// Forge: github | gitlab.
    pub forge: String,
    /// Instance host (e.g. gitlab.savvifi.com); empty = the forge default.
    pub host: String,
    /// Org (GitHub) or group path (GitLab) to enumerate. Ignored if repos are given.
    pub group: String,
    /// Explicit repo names instead of enumerating a group.
    pub repos: Vec<String>,
    /// Force a bump even where a caret/range already admits the target.
    pub force: bool,
}

/// What to scan for out-of-date dependencies.
#[derive(Debug)]
pub struct DiscoverArgs {
    /// Forge: github | gitlab.
    pub forge: String,
    /// Instance host (e.g. gitlab.savvifi.com); empty = the forge default.
    pub host: String,
    /// Org (GitHub) or group path (GitLab) to scan.
    pub group: String,
    /// Explicit repo names instead of enumerating a group.
    pub repos: Vec<String>,
    /// Module-name prefixes treated as internal (owned by the cascade, skipped by
    /// discovery).
    pub internal_prefixes: Vec<String>,
    /// Report bumps even where a caret/range already admits the latest version.
    pub force: bool,
    /// Also report the internal-prefix modules, i.e. bring this repo's FIRST-PARTY
    /// pins up to the latest published version. Off by default, which keeps
    /// discovery and the cascade disjoint. A module published by one of the
    /// scanned repos stays the cascade's regardless.
    pub include_internal: bool,
    /// Report the internal-prefix modules only.
    pub only_internal: bool,
    /// Route a scope at a private npm registry, in .npmrc's own form.
    pub npm_scope_registries: Vec<String>,
    /// WRITE: open (or refresh) one change per repo carrying its bumps. Without
    /// this, discover only reports.
    pub open: bool,
    /// The branch that opening writes to. Stable on purpose.
    pub open_branch: String,
    /// When opening, arm merge-when-pipeline-succeeds.
    pub auto_merge: bool,
    /// Emit the candidates as JSON instead of the text report.
    pub json: bool,
}

impl DiscoverArgs {
    /// What separates internal dependencies from external ones in this scan.
    pub fn config(&self) -> (r: DiscoverConfig)
        ensures
            r.deep_view() == (DiscoverConfigView {
                internal_prefixes: self.internal_prefixes.deep_view(),
                force: self.force,
                include_internal: self.include_internal,
                only_internal: self.only_internal,
            }),
    {
        DiscoverConfig {
            internal_prefixes: copy_texts(&self.internal_prefixes),
            force: self.force,
            include_internal: self.include_internal,
            only_internal: self.only_internal,
        }
    }

    /// Are first-party packages asked for without a registry that knows them? The
    /// public registry 404s every first-party package, and a lookup miss is not an
    /// error (it's "no info"), so the run would look clean while doing nothing.
    pub fn lacks_scope_registry(&self) -> (r: bool)
        ensures
            r == ((self.include_internal || self.only_internal) && self.npm_scope_registries@.len()
                == 0),
    {
        (self.include_internal || self.only_internal) && self.npm_scope_registries.len() == 0
    }
}

/// The changes to open behind a report.
#[derive(Debug, PartialEq, Eq)]
pub struct OpenOrder {
    /// The branch to write to.
    pub branch: String,
    /// Arm merge-when-pipeline-succeeds.
    pub auto_merge: bool,
}

impl DiscoverArgs {
    /// What discover does behind its report: without the flag it only reports;
    /// with it, it opens (or refreshes) one change per repo.
    pub fn behind_report(&self) -> (r: Option<OpenOrder>)
        ensures
            r is Some <==> self.open,
            r matches Some(o) ==> o.branch@ == self.open_branch@ && o.auto_merge == self.auto_merge,
    {
        if self.open {
            Some(OpenOrder { branch: self.open_branch.clone(), auto_merge: self.auto_merge })
        } else {
            None
        }
    }
}

/// Which repos to look at.
#[derive(Debug, PartialEq, Eq)]
pub enum Selection {
    /// Every repo of the group.
    Group,
    /// The ones listed.
    Listed(Vec<RepoSpec>),
}

/// The repos listed by name.
fn listed(names: &Vec<String>) -> (r: Vec<RepoSpec>)
    ensures
        r.deep_view() == names.deep_view().map_values(|n: Seq<char>| RepoSpecView { name: n }),
{
    let mut out: Vec<RepoSpec> = Vec::new();
    let mut i: usize = 0;
    while i < names.len()
        invariant
            i <= names@.len(),
            out@.len() == i,
            forall|j: int|
                0 <= j < i ==> (#[trigger] out@[j]).deep_view() == (RepoSpecView {
                    name: names@[j]@,
                }),
        decreases names@.len() - i,
    {
        out.push(RepoSpec { name: names[i].clone() });
        i = i + 1;
    }
    assert(out.deep_view() =~= names.deep_view().map_values(
        |n: Seq<char>| RepoSpecView { name: n },
    ));
    out
}

/// The repos that a plan looks at: those listed, else those of the group, which
/// must then be given.
pub fn select_for_plan(group: &String, repos: &Vec<String>) -> (r: Result<Selection, String>)
    ensures
        match r {
            Ok(Selection::Group) => repos@.len() == 0 && group@.len() > 0,
            Ok(Selection::Listed(l)) => repos@.len() > 0 && l.deep_view()
                == repos.deep_view().map_values(|n: Seq<char>| RepoSpecView { name: n }),
            Err(e) => repos@.len() == 0 && group@.len() == 0 && e@
                == "pass --group <org/group> or --repos a,b,c"@,
        },
{
    if repos.len() == 0 {
        if group.is_empty() {
            return Err("pass --group <org/group> or --repos a,b,c".to_owned());
        }
        return Ok(Selection::Group);
    }
    Ok(Selection::Listed(listed(repos)))
}

/// The repos that a scan looks at: those listed, else those of the group. Either
/// way the group must be given: it's the owner/namespace each repo lives under
/// (e.g. `fastverk/<repo>`), used to address the forge API.
pub fn select_for_scan(group: &String, repos: &Vec<String>) -> (r: Result<Selection, String>)
    ensures
        match r {
            Ok(Selection::Group) => repos@.len() == 0 && group@.len() > 0,
            Ok(Selection::Listed(l)) => repos@.len() > 0 && group@.len() > 0 && l.deep_view()
                == repos.deep_view().map_values(|n: Seq<char>| RepoSpecView { name: n }),
            Err(e) => group@.len() == 0 && e@ == (if repos@.len() == 0 {
                "pass --group <org/group> or --repos a,b,c"@
            } else {
                "--repos also needs --group <org/group> (the owner the repos live under)"@
            }),
        },
{
    if repos.len() > 0 && group.is_empty() {
        return Err(
            "--repos also needs --group <org/group> (the owner the repos live under)".to_owned(),
        );
    }
    select_for_plan(group, repos)
}

/// Where the first `=` of `s` stands.
pub open spec fn equals_at(s: Seq<char>, i: int) -> bool {
    0 <= i < s.len() && s[i] == '=' && forall|j: int| 0 <= j < i ==> #[trigger] s[j] != '='
}

/// Is `s` a scope, `=` and a registry, neither of them empty?
pub open spec fn is_scope_registry(s: Seq<char>) -> bool {
    exists|i: int| #[trigger] equals_at(s, i) && 0 < i < s.len() - 1
}

/// Parse a `--npm-scope-registry '@scope/=https://host/path'` pair.
pub fn parse_scope_registry(spec: &str) -> (r: Result<(String, String), String>)
    ensures
        match r {
            Ok((scope, registry)) => scope@.len() > 0 && registry@.len() > 0 && spec@ == scope@
                + seq!['='] + registry@ && !scope@.contains('='),
            Err(e) => !is_scope_registry(spec@) && e@
                == "--npm-scope-registry expects '@scope/=<registry-url>', got "@ + render::quoted(
                spec@,
            ),
        },
{
    let v = chars_of(spec);
    let mut i: usize = 0;
    while i < v.len() && v[i] != '='
        invariant
            i <= v@.len(),
            forall|j: int| 0 <= j < i ==> #[trigger] v@[j] != '=',
        decreases v@.len() - i,
    {
        i = i + 1;
    }
    if i > 0 && i < v.len() && i + 1 < v.len() {
        let scope = text_of(&v, 0, i);
        let registry = text_of(&v, i + 1, v.len());
        assert(spec@ =~= scope@ + seq!['='] + registry@);
        return Ok((scope, registry));
    }
    proof {
        if is_scope_registry(spec@) {
            let k = choose|k: int| #[trigger] equals_at(spec@, k) && 0 < k < spec@.len() - 1;
            assert(spec@[k] == '=');
            if i < k {
                assert(spec@[i as int] != '=');
            }
        }
    }
    let mut e = "--npm-scope-registry expects '@scope/=<registry-url>', got ".to_owned();
    let q = quote(spec);
    e.append(q.as_str());
    Err(e)
}

// ─── waves ──────────────────────────────────────────────────────────────

/// Is the wave still to be driven?
pub open spec fn active(w: WaveView) -> bool {
    let s = WaveState::of_number(w.state);
    !(s is Completed || s is Aborted)
}

/// Is the wave still to be driven?
pub fn is_active(w: &pb::Wave) -> (r: bool)
    ensures
        r == active(w.deep_view()),
{
    match WaveState::from_number(w.state) {
        WaveState::Completed => false,
        WaveState::Aborted => false,
        _ => true,
    }
}

/// The waves that are still to be driven, in order.
pub open spec fn active_of(ws: Seq<WaveView>) -> Seq<WaveView>
    decreases ws.len(),
{
    if ws.len() == 0 {
        seq![]
    } else if active(ws.last()) {
        active_of(ws.drop_last()).push(ws.last())
    } else {
        active_of(ws.drop_last())
    }
}

/// The waves that are still to be driven, in order.
pub fn active_waves(waves: &Vec<pb::Wave>) -> (r: Vec<pb::Wave>)
    ensures
        r.deep_view() == active_of(waves.deep_view()),
{
    let ghost wv = waves.deep_view();
    let mut out: Vec<pb::Wave> = Vec::new();
    let mut i: usize = 0;
    assert(out.deep_view() =~= active_of(wv.take(0)));
    while i < waves.len()
        invariant
            wv == waves.deep_view(),
            i <= waves@.len() == wv.len(),
            out.deep_view() == active_of(wv.take(i as int)),
        decreases waves@.len() - i,
    {
        let ghost before = out.deep_view();
        assert(wv.take(i + 1).drop_last() =~= wv.take(i as int));
        assert(wv.take(i + 1).last() == waves@[i as int].deep_view());
        if is_active(&waves[i]) {
            let w = waves[i].clone();
            out.push(w);
            assert(out.deep_view() =~= before.push(w.deep_view()));
        }
        i = i + 1;
    }
    assert(wv.take(wv.len() as int) =~= wv);
    out
}

/// The repo whose forge a wave is driven on: its first item's, else its root's.
pub open spec fn anchor_of(w: WaveView) -> Option<RepoRefView> {
    if w.items.len() > 0 && w.items[0].repo is Some {
        w.items[0].repo
    } else {
        w.root_repo
    }
}

/// The repo whose forge a wave is driven on: its first item's, else its root's.
pub fn anchor(w: &pb::Wave) -> (r: Option<pb::RepoRef>)
    ensures
        r.deep_view() == anchor_of(w.deep_view()),
{
    if w.items.len() > 0 {
        if let Some(repo) = &w.items[0].repo {
            return Some(repo.clone());
        }
    }
    match &w.root_repo {
        Some(repo) => Some(repo.clone()),
        None => None,
    }
}

/// What is said of a repo whose change was opened.
pub open spec fn opened_text(o: OpenOutcomeView) -> Seq<char> {
    (if o.already_existed {
        "refreshed "@
    } else {
        "opened "@
    }) + o.repo.key() + " ("@ + text::decimal(o.bumped.len()) + " bump(s)): "@ + o.url + "\n"@
}

/// What is said of the repos whose changes were opened, a line each.
pub open spec fn opened_lines(os: Seq<OpenOutcomeView>) -> Seq<char>
    decreases os.len(),
{
    if os.len() == 0 {
        seq![]
    } else {
        opened_lines(os.drop_last()) + opened_text(os.last())
    }
}

fn append_opened(s: &mut String, o: &OpenOutcome)
    ensures
        final(s)@ == old(s)@ + opened_text(o.deep_view()),
{
    if o.already_existed {
        s.append("refreshed ");
    } else {
        s.append("opened ");
    }
    let key = repo_key(&o.repo);
    s.append(key.as_str());
    s.append(" (");
    let n = decimal_of(o.bumped.len() as u64);
    s.append(n.as_str());
    s.append(" bump(s)): ");
    s.append(o.url.as_str());
    s.append("\n");
    assert(s@ =~= old(s)@ + opened_text(o.deep_view()));
}

/// What is said of the changes that were opened.
pub fn render_opened(opened: &Vec<OpenOutcome>) -> (r: String)
    ensures
        r@ == (if opened@.len() == 0 {
            "nothing to open — every candidate is already on the branch\n"@
        } else {
            opened_lines(opened.deep_view())
        }),
{
    if opened.len() == 0 {
        return "nothing to open — every candidate is already on the branch\n".to_owned();
    }
    let ghost ov = opened.deep_view();
    let mut s = String::new();
    let mut i: usize = 0;
    assert(s@ =~= opened_lines(ov.take(0)));
    while i < opened.len()
        invariant
            ov == opened.deep_view(),
            i <= opened@.len() == ov.len(),
            s@ == opened_lines(ov.take(i as int)),
        decreases opened@.len() - i,
    {
        assert(ov.take(i + 1).drop_last() =~= ov.take(i as int));
        assert(ov.take(i + 1).last() == opened@[i as int].deep_view());
        append_opened(&mut s, &opened[i]);
        i = i + 1;
    }
    assert(ov.take(ov.len() as int) =~= ov);
    s
}

/// What is said of a wave that was started.
pub fn render_started(wave: &pb::Wave) -> (r: String)
    ensures
        r@ == "opened "@ + wave.deep_view().id + " ("@ + text::decimal(
            wave.deep_view().items.len(),
        ) + " items)\n"@,
{
    let mut s = "opened ".to_owned();
    s.append(wave.id.as_str());
    s.append(" (");
    let n = decimal_of(wave.items.len() as u64);
    s.append(n.as_str());
    s.append(" items)\n");
    s
}

// ─── what is decided ────────────────────────────────────────────────────

/// The wave, if it is still to be driven: if its state is neither the completed one,
/// number 4, nor the aborted one, number 5.
pub open spec fn driving() -> spec_fn(WaveView) -> Option<WaveView> {
    |w: WaveView|
        if w.state != 4 && w.state != 5 {
            Some(w)
        } else {
            None
        }
}

/// The waves that are driven are those that are neither completed nor aborted, in order.
pub proof fn unfinished_waves_are_driven(ws: Seq<WaveView>)
    ensures
        select::is_selection(ws, active_of(ws), driving()),
    decreases ws.len(),
{
    if ws.len() == 0 {
        select::nothing_selected(ws, active_of(ws), driving());
    } else {
        unfinished_waves_are_driven(ws.drop_last());
        select::one_more_selected(
            ws.drop_last(),
            active_of(ws.drop_last()),
            driving(),
            ws.last(),
        );
        assert(ws.drop_last().push(ws.last()) =~= ws);
    }
}

/// A wave is driven on the forge of its first item; where that has no repo, or where
/// there is no item, on that of its root.
pub proof fn waves_are_driven_at_their_first_repo(w: WaveView)
    ensures
        w.items.len() > 0 ==> (w.items[0].repo matches Some(r) ==> anchor_of(w) == Some(r)),
        w.items.len() == 0 ==> anchor_of(w) == w.root_repo,
        w.items.len() > 0 && w.items[0].repo is None ==> anchor_of(w) == w.root_repo,
{
}

/// Does the value at `i` hold something, and does none before it?
pub open spec fn is_first_set(values: Seq<Option<Seq<char>>>, i: int) -> bool {
    &&& 0 <= i < values.len()
    &&& values[i] is Some && (values[i]->0).len() > 0
    &&& forall|j: int|
        0 <= j < i ==> ((#[trigger] values[j]) matches Some(v) ==> v.len() == 0)
}

/// The token is the first value that is there and not empty; there is none just where
/// no value is.
pub proof fn first_value_is_the_token(values: Seq<Option<Seq<char>>>, i: int)
    ensures
        is_first_set(values, i) ==> first_set(values) == values[i],
        (forall|j: int|
            0 <= j < values.len() ==> ((#[trigger] values[j]) matches Some(v) ==> v.len() == 0))
            ==> first_set(values) is None,
    decreases values.len(),
{
    if values.len() > 0 {
        let tail = values.skip(1);
        first_value_is_the_token(tail, i - 1);
        if is_first_set(values, i) && i > 0 {
            assert(values[0] matches Some(v) ==> v.len() == 0);
            assert forall|j: int| 0 <= j < i - 1 implies ((#[trigger] tail[j]) matches Some(v)
                ==> v.len() == 0) by {
                assert(values[j + 1] == tail[j]);
            }
            assert(tail[i - 1] == values[i]);
        }
        if forall|j: int|
            0 <= j < values.len() ==> ((#[trigger] values[j]) matches Some(v) ==> v.len() == 0) {
            assert(values[0] matches Some(v) ==> v.len() == 0);
            assert forall|j: int| 0 <= j < tail.len() implies ((#[trigger] tail[j]) matches Some(v)
                ==> v.len() == 0) by {
                assert(values[j + 1] == tail[j]);
            }
        }
    }
}

/// The general token is asked for last, whatever the forge; a forge's own is asked for
/// before it, and the two forges have no other in common.
pub proof fn own_token_comes_first(kind: ForgeKind)
    ensures
        token_names(kind).last() == "FORGE_TOKEN"@,
        token_names(kind).len() == (if kind is Unspecified {
            1nat
        } else {
            2nat
        }),
        kind is Github ==> token_names(kind)[0] == "GITHUB_TOKEN"@,
        kind is Gitlab ==> token_names(kind)[0] == "GITLAB_TOKEN"@,
{
}

/// A host that is given is used as it is; the default one is that of the forge's name.
pub proof fn given_host_is_used(kind: ForgeKind, host: Seq<char>, name: Seq<char>)
    ensures
        host.len() > 0 ==> host_for(kind, host) == host,
        host.len() == 0 && forge_named(name) == Some(kind) ==> host_for(kind, host) == name
            + ".com"@,
        forge_named(name) is Some <==> name == "github"@ || name == "gitlab"@,
{
    reveal_strlit("github");
    reveal_strlit("gitlab");
    reveal_strlit("github.com");
    reveal_strlit("gitlab.com");
    reveal_strlit(".com");
    assert("github"@ + ".com"@ =~= "github.com"@);
    assert("gitlab"@ + ".com"@ =~= "gitlab.com"@);
}

/// What is said of one more change that was opened: whether it was there before, its
/// repo, how many bumps it carries, and where it is.
#[verifier::rlimit(60)]
pub proof fn every_change_is_told(os: Seq<OpenOutcomeView>, o: OpenOutcomeView)
    ensures
        opened_lines(os.push(o)) == opened_lines(os) + ((if o.already_existed {
            "refreshed "@
        } else {
            "opened "@
        }) + o.repo.key() + " ("@ + text::decimal(o.bumped.len()) + " bump(s)): "@ + o.url
            + "\n"@),
        opened_lines(seq![]) == Seq::<char>::empty(),
{
    let all = os.push(o);
    assert(all.drop_last() =~= os);
    assert(opened_lines(all) == opened_lines(os) + opened_text(o));
}

} // verus!
