//! `wave discover --open` — turn discovery candidates into ONE change per repo.
//!
//! This is the *flat* actuation path, deliberately not the cascade: it bumps a
//! repo's own pins and stops. There is no tier ordering, no publish detection and
//! no waiting, because nothing downstream depends on the result — the repos this
//! serves pin every dependency themselves (a pnpm catalog is exactly that: one
//! flat, repo-wide version map), so a bump needs no upstream to republish first.
//! Multi-repo propagation is [`WaveRunner`](crate::runner::WaveRunner)'s job.
//!
//! The branch name is STABLE, which makes the whole path idempotent against a
//! periodic schedule: making the branch and opening the change both no-op onto
//! what already exists, so a re-run refreshes the same MR with newer versions
//! rather than opening a second one. Manifests are read back from the wave branch
//! (not the default branch) so a re-run builds on prior commits instead of
//! reverting them.
use vstd::prelude::*;
use vstd::string::*;

use crate::cascade::{self, ForgeReply, ForgeRequest, ReplyView, RequestView};
use crate::discover::{Candidate, CandidateView};
use crate::forge::{OpenedChange, OpenedChangeView, RepoRef, RepoRefView};
use crate::graph::repo_key;
use crate::provider::{self, GraphProvider, Provider, ProviderChain};
use crate::select;
use crate::text::{self, decimal_of, text_before};

verus! {

/// What `--open` did for one repo.
#[derive(Debug, PartialEq, Eq)]
pub struct OpenOutcome {
    pub repo: RepoRef,
    pub url: String,
    /// The change already existed and was refreshed rather than created.
    pub already_existed: bool,
    /// `(module, target)` actually rewritten, for the report.
    pub bumped: Vec<(String, String)>,
}

/// What an [`OpenOutcome`] says.
pub struct OpenOutcomeView {
    pub repo: RepoRefView,
    pub url: Seq<char>,
    pub already_existed: bool,
    pub bumped: Seq<(Seq<char>, Seq<char>)>,
}

impl DeepView for OpenOutcome {
    type V = OpenOutcomeView;

    open spec fn deep_view(&self) -> OpenOutcomeView {
        OpenOutcomeView {
            repo: self.repo.deep_view(),
            url: self.url@,
            already_existed: self.already_existed,
            bumped: self.bumped.deep_view(),
        }
    }
}

// ─── wording ────────────────────────────────────────────────────────────

/// `"@aion/kernel to 0.2.3"` for one, `"7 dependencies"` for many.
pub open spec fn summary(bumped: Seq<(Seq<char>, Seq<char>)>) -> Seq<char> {
    if bumped.len() == 1 {
        bumped[0].0 + " to "@ + bumped[0].1
    } else {
        text::decimal(bumped.len()) + " dependencies"@
    }
}

/// `"@aion/kernel to 0.2.3"` for one, `"7 dependencies"` for many — a title has
/// to stay short, and GitLab caps a commit-status target_url at 255 chars.
pub fn summarize(bumped: &Vec<(String, String)>) -> (r: String)
    ensures
        r@ == summary(bumped.deep_view()),
{
    if bumped.len() == 1 {
        let mut out = bumped[0].0.clone();
        out.append(" to ");
        out.append(bumped[0].1.as_str());
        out
    } else {
        let mut out = decimal_of(bumped.len() as u64);
        out.append(" dependencies");
        out
    }
}

/// One line per bump.
pub open spec fn bump_lines(bumped: Seq<(Seq<char>, Seq<char>)>) -> Seq<char>
    decreases bumped.len(),
{
    if bumped.len() == 0 {
        seq![]
    } else {
        bump_lines(bumped.drop_last()) + "- `"@ + bumped.last().0 + "` → `"@ + bumped.last().1
            + "`\n"@
    }
}

/// The description of a change.
pub open spec fn body_text(bumped: Seq<(Seq<char>, Seq<char>)>) -> Seq<char> {
    "Opened by `wave discover --open`.\n\n"@ + bump_lines(bumped)
}

/// The description of a change: what opened it, and one line per bump.
pub fn render_body(bumped: &Vec<(String, String)>) -> (r: String)
    ensures
        r@ == body_text(bumped.deep_view()),
{
    let ghost bv = bumped.deep_view();
    let ghost head = "Opened by `wave discover --open`.\n\n"@;
    let mut s = "Opened by `wave discover --open`.\n\n".to_owned();
    let mut i: usize = 0;
    assert(s@ =~= head + bump_lines(bv.take(0)));
    while i < bumped.len()
        invariant
            bv == bumped.deep_view(),
            i <= bumped@.len() == bv.len(),
            s@ == head + bump_lines(bv.take(i as int)),
        decreases bumped@.len() - i,
    {
        assert(bv.take(i + 1).drop_last() =~= bv.take(i as int));
        assert(bv.take(i + 1).last() == bumped@[i as int].deep_view());
        s.append("- `");
        s.append(bumped[i].0.as_str());
        s.append("` → `");
        s.append(bumped[i].1.as_str());
        s.append("`\n");
        assert(s@ =~= head + bump_lines(bv.take(i + 1)));
        i = i + 1;
    }
    assert(bv.take(bv.len() as int) =~= bv);
    s
}

/// `Bump <summary>`.
fn title_of(bumped: &Vec<(String, String)>) -> (r: String)
    ensures
        r@ == "Bump "@ + summary(bumped.deep_view()),
{
    let mut out = "Bump ".to_owned();
    let s = summarize(bumped);
    out.append(s.as_str());
    out
}

// ─── grouping ───────────────────────────────────────────────────────────

/// The bumps of one manifest, as `(module, target)`.
#[derive(Debug, PartialEq, Eq)]
pub struct ManifestBumps {
    pub path: String,
    pub bumps: Vec<(String, String)>,
}

/// What a [`ManifestBumps`] says.
pub struct ManifestBumpsView {
    pub path: Seq<char>,
    pub bumps: Seq<(Seq<char>, Seq<char>)>,
}

impl DeepView for ManifestBumps {
    type V = ManifestBumpsView;

    open spec fn deep_view(&self) -> ManifestBumpsView {
        ManifestBumpsView { path: self.path@, bumps: self.bumps.deep_view() }
    }
}

/// The bumps of one repo, by manifest.
#[derive(Debug, PartialEq, Eq)]
pub struct RepoBumps {
    pub repo: RepoRef,
    pub manifests: Vec<ManifestBumps>,
}

/// What a [`RepoBumps`] says.
pub struct RepoBumpsView {
    pub repo: RepoRefView,
    pub manifests: Seq<ManifestBumpsView>,
}

impl DeepView for RepoBumps {
    type V = RepoBumpsView;

    open spec fn deep_view(&self) -> RepoBumpsView {
        RepoBumpsView { repo: self.repo.deep_view(), manifests: self.manifests.deep_view() }
    }
}

/// The manifests with the bump added behind those of its manifest, which stands
/// at its place by path.
pub open spec fn with_bump(
    ms: Seq<ManifestBumpsView>,
    path: Seq<char>,
    bump: (Seq<char>, Seq<char>),
) -> Seq<ManifestBumpsView>
    decreases ms.len(),
{
    if ms.len() == 0 {
        seq![ManifestBumpsView { path, bumps: seq![bump] }]
    } else if ms[0].path == path {
        seq![ManifestBumpsView { path: ms[0].path, bumps: ms[0].bumps.push(bump) }] + ms.skip(1)
    } else if text::text_lt(path, ms[0].path) {
        seq![ManifestBumpsView { path, bumps: seq![bump] }] + ms
    } else {
        seq![ms[0]] + with_bump(ms.skip(1), path, bump)
    }
}

/// The repos with the candidate added to its repo, which stands at its place by
/// key.
pub open spec fn with_candidate(gs: Seq<RepoBumpsView>, c: CandidateView) -> Seq<RepoBumpsView>
    decreases gs.len(),
{
    if gs.len() == 0 {
        seq![
            RepoBumpsView {
                repo: c.repo,
                manifests: with_bump(seq![], c.manifest_path, (c.module, c.latest)),
            },
        ]
    } else if gs[0].repo.key() == c.repo.key() {
        seq![
            RepoBumpsView {
                repo: gs[0].repo,
                manifests: with_bump(gs[0].manifests, c.manifest_path, (c.module, c.latest)),
            },
        ] + gs.skip(1)
    } else if text::text_lt(c.repo.key(), gs[0].repo.key()) {
        seq![
            RepoBumpsView {
                repo: c.repo,
                manifests: with_bump(seq![], c.manifest_path, (c.module, c.latest)),
            },
        ] + gs
    } else {
        seq![gs[0]] + with_candidate(gs.skip(1), c)
    }
}

/// The candidates by repo, then by the manifest each bump rewrites.
pub open spec fn grouped(cs: Seq<CandidateView>) -> Seq<RepoBumpsView>
    decreases cs.len(),
{
    if cs.len() == 0 {
        seq![]
    } else {
        with_candidate(grouped(cs.drop_last()), cs.last())
    }
}

/// A list with one bump.
fn one_bump(module: &String, latest: &String) -> (r: Vec<(String, String)>)
    ensures
        r.deep_view() == seq![(module@, latest@)],
{
    let mut bumps: Vec<(String, String)> = Vec::new();
    bumps.push((module.clone(), latest.clone()));
    assert(bumps.deep_view() =~= seq![(module@, latest@)]);
    bumps
}

/// Adds a bump to its manifest.
fn add_bump(ms: &mut Vec<ManifestBumps>, path: &String, module: &String, latest: &String)
    ensures
        final(ms).deep_view() == with_bump(old(ms).deep_view(), path@, (module@, latest@)),
{
    let ghost mv = ms.deep_view();
    let ghost bump = (module@, latest@);
    let mut i: usize = 0;
    assert(mv.take(0) + with_bump(mv.skip(0), path@, bump) =~= with_bump(mv, path@, bump)) by {
        assert(mv.skip(0) =~= mv);
    }
    while i < ms.len()
        invariant
            *ms == *old(ms),
            mv == ms.deep_view(),
            bump == (module@, latest@),
            i <= ms@.len() == mv.len(),
            with_bump(mv, path@, bump) == mv.take(i as int) + with_bump(
                mv.skip(i as int),
                path@,
                bump,
            ),
        decreases ms@.len() - i,
    {
        let ghost rest = mv.skip(i as int);
        assert(rest[0] == ms@[i as int].deep_view());
        if ms[i].path == *path {
            let ghost raw = ms@;
            let mut m = ms.remove(i);
            m.bumps.push((module.clone(), latest.clone()));
            assert(m.deep_view().bumps =~= rest[0].bumps.push(bump));
            ms.insert(i, m);
            proof {
                let expected = mv.take(i as int) + (seq![
                    ManifestBumpsView { path: rest[0].path, bumps: rest[0].bumps.push(bump) },
                ] + rest.skip(1));
                assert forall|k: int| 0 <= k < ms@.len() && k != i implies #[trigger] ms@[k]
                    == raw[k] by {}
                assert(ms.deep_view() =~= expected);
            }
            return ;
        }
        if text_before(path.as_str(), ms[i].path.as_str()) {
            let m = ManifestBumps { path: path.clone(), bumps: one_bump(module, latest) };
            ms.insert(i, m);
            assert(ms.deep_view() =~= mv.take(i as int) + (seq![m.deep_view()] + rest));
            return ;
        }
        assert(rest.skip(1) =~= mv.skip(i + 1));
        assert(mv.take(i as int) + (seq![rest[0]] + with_bump(rest.skip(1), path@, bump))
            =~= mv.take(i + 1) + with_bump(mv.skip(i + 1), path@, bump));
        i = i + 1;
    }
    let m = ManifestBumps { path: path.clone(), bumps: one_bump(module, latest) };
    ms.push(m);
    assert(ms.deep_view() =~= mv.take(i as int) + seq![m.deep_view()]);
}

/// A repo with one bump.
fn one_candidate(c: &Candidate) -> (r: RepoBumps)
    ensures
        r.deep_view() == (RepoBumpsView {
            repo: c.deep_view().repo,
            manifests: with_bump(
                seq![],
                c.deep_view().manifest_path,
                (c.deep_view().module, c.deep_view().latest),
            ),
        }),
{
    let mut manifests: Vec<ManifestBumps> = Vec::new();
    assert(manifests.deep_view() =~= seq![]);
    add_bump(&mut manifests, &c.manifest_path, &c.module, &c.latest);
    RepoBumps { repo: c.repo.clone(), manifests }
}

/// Adds a candidate to its repo.
fn add_candidate(gs: &mut Vec<RepoBumps>, c: &Candidate)
    ensures
        final(gs).deep_view() == with_candidate(old(gs).deep_view(), c.deep_view()),
{
    let ghost gv = gs.deep_view();
    let ghost cv = c.deep_view();
    let key = repo_key(&c.repo);
    let mut i: usize = 0;
    assert(gv.take(0) + with_candidate(gv.skip(0), cv) =~= with_candidate(gv, cv)) by {
        assert(gv.skip(0) =~= gv);
    }
    while i < gs.len()
        invariant
            *gs == *old(gs),
            gv == gs.deep_view(),
            cv == c.deep_view(),
            key@ == cv.repo.key(),
            i <= gs@.len() == gv.len(),
            with_candidate(gv, cv) == gv.take(i as int) + with_candidate(gv.skip(i as int), cv),
        decreases gs@.len() - i,
    {
        let ghost rest = gv.skip(i as int);
        assert(rest[0] == gs@[i as int].deep_view());
        let here = repo_key(&gs[i].repo);
        if here == key {
            let ghost raw = gs@;
            let mut g = gs.remove(i);
            add_bump(&mut g.manifests, &c.manifest_path, &c.module, &c.latest);
            gs.insert(i, g);
            proof {
                let expected = gv.take(i as int) + (seq![g.deep_view()] + rest.skip(1));
                assert forall|k: int| 0 <= k < gs@.len() && k != i implies #[trigger] gs@[k]
                    == raw[k] by {}
                assert(gs.deep_view() =~= expected);
            }
            return ;
        }
        if text_before(key.as_str(), here.as_str()) {
            let g = one_candidate(c);
            gs.insert(i, g);
            assert(gs.deep_view() =~= gv.take(i as int) + (seq![g.deep_view()] + rest));
            return ;
        }
        assert(rest.skip(1) =~= gv.skip(i + 1));
        assert(gv.take(i as int) + (seq![rest[0]] + with_candidate(rest.skip(1), cv)) =~= gv.take(
            i + 1,
        ) + with_candidate(gv.skip(i + 1), cv));
        i = i + 1;
    }
    let g = one_candidate(c);
    gs.push(g);
    assert(gs.deep_view() =~= gv.take(i as int) + seq![g.deep_view()]);
}

/// Group by repo, then by the manifest each bump rewrites — one commit per
/// manifest, one change per repo. Repos and manifests stand in a stable order.
pub fn group_candidates(candidates: &Vec<Candidate>) -> (r: Vec<RepoBumps>)
    ensures
        r.deep_view() == grouped(candidates.deep_view()),
{
    let ghost cs = candidates.deep_view();
    let mut out: Vec<RepoBumps> = Vec::new();
    let mut i: usize = 0;
    assert(out.deep_view() =~= grouped(cs.take(0)));
    while i < candidates.len()
        invariant
            cs == candidates.deep_view(),
            i <= candidates@.len() == cs.len(),
            out.deep_view() == grouped(cs.take(i as int)),
        decreases candidates@.len() - i,
    {
        assert(cs.take(i + 1).drop_last() =~= cs.take(i as int));
        assert(cs.take(i + 1).last() == candidates@[i as int].deep_view());
        add_candidate(&mut out, &candidates[i]);
        i = i + 1;
    }
    assert(cs.take(cs.len() as int) =~= cs);
    out
}

/// The bumps listed for the manifest `path`.
pub open spec fn bumps_at(ms: Seq<ManifestBumpsView>, path: Seq<char>) -> Seq<
    (Seq<char>, Seq<char>),
>
    decreases ms.len(),
{
    if ms.len() == 0 {
        seq![]
    } else if ms[0].path == path {
        ms[0].bumps
    } else {
        bumps_at(ms.skip(1), path)
    }
}

/// The bumps listed for the manifest `path` of the repo `key`.
pub open spec fn bumps_in(gs: Seq<RepoBumpsView>, key: Seq<char>, path: Seq<char>) -> Seq<
    (Seq<char>, Seq<char>),
>
    decreases gs.len(),
{
    if gs.len() == 0 {
        seq![]
    } else if gs[0].repo.key() == key {
        bumps_at(gs[0].manifests, path)
    } else {
        bumps_in(gs.skip(1), key, path)
    }
}

/// The candidates for the manifest `path` of the repo `key`, in order.
pub open spec fn candidates_at(cs: Seq<CandidateView>, key: Seq<char>, path: Seq<char>) -> Seq<
    (Seq<char>, Seq<char>),
>
    decreases cs.len(),
{
    if cs.len() == 0 {
        seq![]
    } else {
        let init = candidates_at(cs.drop_last(), key, path);
        if cs.last().repo.key() == key && cs.last().manifest_path == path {
            init.push((cs.last().module, cs.last().latest))
        } else {
            init
        }
    }
}

/// Is each manifest before the next?
pub open spec fn paths_ascend(ms: Seq<ManifestBumpsView>) -> bool {
    forall|i: int, j: int|
        #![trigger ms[i], ms[j]]
        0 <= i < j < ms.len() ==> text::text_lt(ms[i].path, ms[j].path)
}

/// Is each repo before the next?
pub open spec fn keys_ascend(gs: Seq<RepoBumpsView>) -> bool {
    forall|i: int, j: int|
        #![trigger gs[i], gs[j]]
        0 <= i < j < gs.len() ==> text::text_lt(gs[i].repo.key(), gs[j].repo.key())
}

proof fn bump_keeps_paths(ms: Seq<ManifestBumpsView>, path: Seq<char>, bump: (Seq<char>, Seq<char>))
    requires
        paths_ascend(ms),
    ensures
        paths_ascend(with_bump(ms, path, bump)),
        forall|i: int|
            0 <= i < with_bump(ms, path, bump).len() ==> (#[trigger] with_bump(
                ms,
                path,
                bump,
            )[i]).path == path || exists|j: int|
                0 <= j < ms.len() && (#[trigger] ms[j]).path == with_bump(ms, path, bump)[i].path,
    decreases ms.len(),
{
    let r = with_bump(ms, path, bump);
    if ms.len() == 0 {
    } else if ms[0].path == path {
        assert forall|i: int| 0 <= i < r.len() implies (#[trigger] r[i]).path == ms[i].path by {}
        assert forall|i: int, j: int|
            #![trigger r[i], r[j]]
            0 <= i < j < r.len() implies text::text_lt(r[i].path, r[j].path) by {
            assert(text::text_lt(ms[i].path, ms[j].path));
        }
    } else if text::text_lt(path, ms[0].path) {
        assert forall|i: int| 0 < i < r.len() implies #[trigger] r[i] == ms[i - 1] by {}
        assert forall|i: int, j: int|
            #![trigger r[i], r[j]]
            0 <= i < j < r.len() implies text::text_lt(r[i].path, r[j].path) by {
            if i == 0 {
                if j > 1 {
                    assert(text::text_lt(ms[0].path, ms[j - 1].path));
                    text::text_lt_transitive(path, ms[0].path, ms[j - 1].path);
                }
            } else {
                assert(text::text_lt(ms[i - 1].path, ms[j - 1].path));
            }
        }
        assert forall|i: int| 0 <= i < r.len() implies (#[trigger] r[i]).path == path
            || exists|j: int| 0 <= j < ms.len() && (#[trigger] ms[j]).path == r[i].path by {
            if i > 0 {
                assert(ms[i - 1].path == r[i].path);
            }
        }
    } else {
        let tail = ms.skip(1);
        text::text_lt_total(path, ms[0].path);
        assert forall|i: int, j: int|
            #![trigger tail[i], tail[j]]
            0 <= i < j < tail.len() implies text::text_lt(tail[i].path, tail[j].path) by {
            assert(text::text_lt(ms[i + 1].path, ms[j + 1].path));
        }
        bump_keeps_paths(tail, path, bump);
        let t = with_bump(tail, path, bump);
        assert forall|i: int| 0 < i < r.len() implies #[trigger] r[i] == t[i - 1] by {}
        assert forall|i: int, j: int|
            #![trigger r[i], r[j]]
            0 <= i < j < r.len() implies text::text_lt(r[i].path, r[j].path) by {
            if i == 0 {
                assert(t[j - 1].path == path || exists|m: int|
                    0 <= m < tail.len() && (#[trigger] tail[m]).path == t[j - 1].path);
                if t[j - 1].path != path {
                    let m = choose|m: int|
                        0 <= m < tail.len() && (#[trigger] tail[m]).path == t[j - 1].path;
                    assert(text::text_lt(ms[0].path, ms[m + 1].path));
                }
            } else {
                assert(text::text_lt(t[i - 1].path, t[j - 1].path));
            }
        }
        assert forall|i: int| 0 <= i < r.len() implies (#[trigger] r[i]).path == path
            || exists|j: int| 0 <= j < ms.len() && (#[trigger] ms[j]).path == r[i].path by {
            if i == 0 {
                assert(ms[0].path == r[0].path);
            } else if t[i - 1].path != path {
                let m = choose|m: int|
                    0 <= m < tail.len() && (#[trigger] tail[m]).path == t[i - 1].path;
                assert(ms[m + 1].path == r[i].path);
            }
        }
    }
}

proof fn bump_reads_back(
    ms: Seq<ManifestBumpsView>,
    path: Seq<char>,
    bump: (Seq<char>, Seq<char>),
    other: Seq<char>,
)
    requires
        paths_ascend(ms),
    ensures
        bumps_at(with_bump(ms, path, bump), path) == bumps_at(ms, path).push(bump),
        other != path ==> bumps_at(with_bump(ms, path, bump), other) == bumps_at(ms, other),
    decreases ms.len(),
{
    reveal_with_fuel(bumps_at, 2);
    let r = with_bump(ms, path, bump);
    if ms.len() == 0 {
        assert(r.skip(1) =~= ms);
        assert(seq![bump] =~= bumps_at(ms, path).push(bump));
    } else if ms[0].path == path {
        assert(r.skip(1) =~= ms.skip(1));
    } else if text::text_lt(path, ms[0].path) {
        assert(r.skip(1) =~= ms);
        absent_path(ms, path);
        assert(seq![bump] =~= bumps_at(ms, path).push(bump));
    } else {
        let tail = ms.skip(1);
        assert forall|i: int, j: int|
            #![trigger tail[i], tail[j]]
            0 <= i < j < tail.len() implies text::text_lt(tail[i].path, tail[j].path) by {
            assert(text::text_lt(ms[i + 1].path, ms[j + 1].path));
        }
        bump_reads_back(tail, path, bump, other);
        assert(r.skip(1) =~= with_bump(tail, path, bump));
    }
}

proof fn absent_path(ms: Seq<ManifestBumpsView>, path: Seq<char>)
    requires
        paths_ascend(ms),
        ms.len() > 0,
        text::text_lt(path, ms[0].path),
    ensures
        bumps_at(ms, path) == Seq::<(Seq<char>, Seq<char>)>::empty(),
    decreases ms.len(),
{
    reveal_with_fuel(bumps_at, 2);
    text::text_lt_irreflexive(path);
    let tail = ms.skip(1);
    if tail.len() > 0 {
        assert(text::text_lt(ms[0].path, ms[1].path));
        text::text_lt_transitive(path, ms[0].path, ms[1].path);
        assert forall|i: int, j: int|
            #![trigger tail[i], tail[j]]
            0 <= i < j < tail.len() implies text::text_lt(tail[i].path, tail[j].path) by {
            assert(text::text_lt(ms[i + 1].path, ms[j + 1].path));
        }
        absent_path(tail, path);
    }
}

/// Are repos and manifests in order?
pub open spec fn in_order(gs: Seq<RepoBumpsView>) -> bool {
    keys_ascend(gs) && forall|i: int|
        0 <= i < gs.len() ==> paths_ascend((#[trigger] gs[i]).manifests)
}

proof fn tail_in_order(gs: Seq<RepoBumpsView>)
    requires
        in_order(gs),
        gs.len() > 0,
    ensures
        in_order(gs.skip(1)),
{
    let tail = gs.skip(1);
    assert forall|i: int, j: int|
        #![trigger tail[i], tail[j]]
        0 <= i < j < tail.len() implies text::text_lt(tail[i].repo.key(), tail[j].repo.key()) by {
        assert(text::text_lt(gs[i + 1].repo.key(), gs[j + 1].repo.key()));
    }
    assert forall|i: int| 0 <= i < tail.len() implies paths_ascend(
        (#[trigger] tail[i]).manifests,
    ) by {
        assert(paths_ascend(gs[i + 1].manifests));
    }
}

proof fn absent_key(gs: Seq<RepoBumpsView>, key: Seq<char>, path: Seq<char>)
    requires
        in_order(gs),
        gs.len() > 0,
        text::text_lt(key, gs[0].repo.key()),
    ensures
        bumps_in(gs, key, path) == Seq::<(Seq<char>, Seq<char>)>::empty(),
    decreases gs.len(),
{
    reveal_with_fuel(bumps_in, 2);
    text::text_lt_irreflexive(key);
    let tail = gs.skip(1);
    if tail.len() > 0 {
        assert(text::text_lt(gs[0].repo.key(), gs[1].repo.key()));
        text::text_lt_transitive(key, gs[0].repo.key(), gs[1].repo.key());
        tail_in_order(gs);
        absent_key(tail, key, path);
    }
}

proof fn candidate_keeps_order(gs: Seq<RepoBumpsView>, c: CandidateView)
    requires
        in_order(gs),
    ensures
        in_order(with_candidate(gs, c)),
        forall|i: int|
            0 <= i < with_candidate(gs, c).len() ==> (#[trigger] with_candidate(
                gs,
                c,
            )[i]).repo.key() == c.repo.key() || exists|j: int|
                0 <= j < gs.len() && (#[trigger] gs[j]).repo.key() == with_candidate(
                    gs,
                    c,
                )[i].repo.key(),
    decreases gs.len(),
{
    let key = c.repo.key();
    let bump = (c.module, c.latest);
    let r = with_candidate(gs, c);
    let none = Seq::<ManifestBumpsView>::empty();
    bump_keeps_paths(none, c.manifest_path, bump);
    if gs.len() == 0 {
    } else if gs[0].repo.key() == key {
        assert(paths_ascend(gs[0].manifests));
        bump_keeps_paths(gs[0].manifests, c.manifest_path, bump);
        assert forall|i: int| 0 < i < r.len() implies #[trigger] r[i] == gs[i] by {}
        assert forall|i: int| 0 <= i < r.len() implies (#[trigger] r[i]).repo.key()
            == gs[i].repo.key() by {}
        assert forall|i: int, j: int|
            #![trigger r[i], r[j]]
            0 <= i < j < r.len() implies text::text_lt(r[i].repo.key(), r[j].repo.key()) by {
            assert(text::text_lt(gs[i].repo.key(), gs[j].repo.key()));
        }
        assert forall|i: int| 0 <= i < r.len() implies paths_ascend((#[trigger] r[i]).manifests) by {
            if i > 0 {
                assert(paths_ascend(gs[i].manifests));
            }
        }
    } else if text::text_lt(key, gs[0].repo.key()) {
        assert forall|i: int| 0 < i < r.len() implies #[trigger] r[i] == gs[i - 1] by {}
        assert forall|i: int, j: int|
            #![trigger r[i], r[j]]
            0 <= i < j < r.len() implies text::text_lt(r[i].repo.key(), r[j].repo.key()) by {
            if i == 0 {
                if j > 1 {
                    assert(text::text_lt(gs[0].repo.key(), gs[j - 1].repo.key()));
                    text::text_lt_transitive(key, gs[0].repo.key(), gs[j - 1].repo.key());
                }
            } else {
                assert(text::text_lt(gs[i - 1].repo.key(), gs[j - 1].repo.key()));
            }
        }
        assert forall|i: int| 0 <= i < r.len() implies paths_ascend((#[trigger] r[i]).manifests) by {
            if i > 0 {
                assert(paths_ascend(gs[i - 1].manifests));
            }
        }
        assert forall|i: int| 0 <= i < r.len() implies (#[trigger] r[i]).repo.key() == key
            || exists|j: int| 0 <= j < gs.len() && (#[trigger] gs[j]).repo.key()
            == r[i].repo.key() by {
            if i > 0 {
                assert(gs[i - 1].repo.key() == r[i].repo.key());
            }
        }
    } else {
        let tail = gs.skip(1);
        text::text_lt_total(key, gs[0].repo.key());
        tail_in_order(gs);
        candidate_keeps_order(tail, c);
        let t = with_candidate(tail, c);
        assert forall|i: int| 0 < i < r.len() implies #[trigger] r[i] == t[i - 1] by {}
        assert forall|i: int, j: int|
            #![trigger r[i], r[j]]
            0 <= i < j < r.len() implies text::text_lt(r[i].repo.key(), r[j].repo.key()) by {
            if i == 0 {
                assert(t[j - 1].repo.key() == key || exists|m: int|
                    0 <= m < tail.len() && (#[trigger] tail[m]).repo.key() == t[j - 1].repo.key());
                if t[j - 1].repo.key() != key {
                    let m = choose|m: int|
                        0 <= m < tail.len() && (#[trigger] tail[m]).repo.key()
                            == t[j - 1].repo.key();
                    assert(text::text_lt(gs[0].repo.key(), gs[m + 1].repo.key()));
                }
            } else {
                assert(text::text_lt(t[i - 1].repo.key(), t[j - 1].repo.key()));
            }
        }
        assert forall|i: int| 0 <= i < r.len() implies paths_ascend((#[trigger] r[i]).manifests) by {
            if i == 0 {
                assert(paths_ascend(gs[0].manifests));
            } else {
                assert(paths_ascend(t[i - 1].manifests));
            }
        }
        assert forall|i: int| 0 <= i < r.len() implies (#[trigger] r[i]).repo.key() == key
            || exists|j: int| 0 <= j < gs.len() && (#[trigger] gs[j]).repo.key()
            == r[i].repo.key() by {
            if i == 0 {
                assert(gs[0].repo.key() == r[0].repo.key());
            } else if t[i - 1].repo.key() != key {
                let m = choose|m: int|
                    0 <= m < tail.len() && (#[trigger] tail[m]).repo.key() == t[i - 1].repo.key();
                assert(gs[m + 1].repo.key() == r[i].repo.key());
            }
        }
    }
}

proof fn candidate_reads_back(
    gs: Seq<RepoBumpsView>,
    c: CandidateView,
    key: Seq<char>,
    path: Seq<char>,
)
    requires
        in_order(gs),
    ensures
        bumps_in(with_candidate(gs, c), key, path) == (if key == c.repo.key() && path
            == c.manifest_path {
            bumps_in(gs, key, path).push((c.module, c.latest))
        } else {
            bumps_in(gs, key, path)
        }),
    decreases gs.len(),
{
    reveal_with_fuel(bumps_in, 2);
    let bump = (c.module, c.latest);
    let r = with_candidate(gs, c);
    let none = Seq::<ManifestBumpsView>::empty();
    bump_reads_back(none, c.manifest_path, bump, path);
    if gs.len() == 0 {
        assert(r.skip(1) =~= gs);
    } else if gs[0].repo.key() == c.repo.key() {
        assert(r.skip(1) =~= gs.skip(1));
        assert(paths_ascend(gs[0].manifests));
        bump_reads_back(gs[0].manifests, c.manifest_path, bump, path);
    } else if text::text_lt(c.repo.key(), gs[0].repo.key()) {
        assert(r.skip(1) =~= gs);
        absent_key(gs, c.repo.key(), path);
    } else {
        tail_in_order(gs);
        candidate_reads_back(gs.skip(1), c, key, path);
        assert(r.skip(1) =~= with_candidate(gs.skip(1), c));
    }
}

/// Grouping loses nothing and mixes nothing up: each repo is listed once, each
/// of its manifests once, both in order, and each manifest's bumps are the
/// candidates for it, in order.
pub proof fn grouping_keeps_candidates(cs: Seq<CandidateView>, key: Seq<char>, path: Seq<char>)
    ensures
        in_order(grouped(cs)),
        bumps_in(grouped(cs), key, path) == candidates_at(cs, key, path),
    decreases cs.len(),
{
    if cs.len() > 0 {
        grouping_keeps_candidates(cs.drop_last(), key, path);
        candidate_keeps_order(grouped(cs.drop_last()), cs.last());
        candidate_reads_back(grouped(cs.drop_last()), cs.last(), key, path);
    }
}

// ─── opening one repo's change ──────────────────────────────────────────

/// The manifest with each of the first `n` bumps written, and those of them that
/// changed it: an entry already at its target is nothing new.
pub open spec fn bumped_upto(
    p: Provider,
    text: Seq<char>,
    bumps: Seq<(Seq<char>, Seq<char>)>,
    n: nat,
) -> (Seq<char>, Seq<(Seq<char>, Seq<char>)>)
    decreases n,
{
    if n == 0 {
        (text, seq![])
    } else {
        let (t, changed) = bumped_upto(p, text, bumps, (n - 1) as nat);
        let (module, target) = bumps[n - 1];
        let next = p.bumped(t, module, target);
        if next != t {
            (next, changed.push((module, target)))
        } else {
            (t, changed)
        }
    }
}

/// A manifest that is at every target already is left as it is, and nothing is
/// listed; and where nothing is listed the manifest is as it was.
pub proof fn at_target_is_nothing_new(
    p: Provider,
    text: Seq<char>,
    bumps: Seq<(Seq<char>, Seq<char>)>,
    n: nat,
)
    requires
        n <= bumps.len(),
    ensures
        (forall|i: int|
            0 <= i < n ==> p.bumped(text, (#[trigger] bumps[i]).0, bumps[i].1) == text)
            ==> bumped_upto(p, text, bumps, n) == (text, Seq::<(Seq<char>, Seq<char>)>::empty()),
        bumped_upto(p, text, bumps, n).1.len() == 0 ==> bumped_upto(p, text, bumps, n).0 == text,
    decreases n,
{
    if n > 0 {
        at_target_is_nothing_new(p, text, bumps, (n - 1) as nat);
        assert(bumps[n - 1] == (bumps[n - 1].0, bumps[n - 1].1));
    }
}

/// Writes each of the bumps into the manifest, and lists those that changed it.
pub fn apply_bumps(p: &Provider, text: &str, bumps: &Vec<(String, String)>) -> (r: (
    String,
    Vec<(String, String)>,
))
    ensures
        (r.0@, r.1.deep_view()) == bumped_upto(
            *p,
            text@,
            bumps.deep_view(),
            bumps.deep_view().len(),
        ),
{
    let ghost bv = bumps.deep_view();
    let mut out = text.to_owned();
    let mut changed_here: Vec<(String, String)> = Vec::new();
    let mut i: usize = 0;
    assert(changed_here.deep_view() =~= seq![]);
    while i < bumps.len()
        invariant
            bv == bumps.deep_view(),
            i <= bumps@.len() == bv.len(),
            (out@, changed_here.deep_view()) == bumped_upto(*p, text@, bv, i as nat),
        decreases bumps@.len() - i,
    {
        let ghost before = changed_here.deep_view();
        assert(bv[i as int] == bumps@[i as int].deep_view());
        let (next, _) = p.bump(out.as_str(), bumps[i].0.as_str(), bumps[i].1.as_str());
        if next != out {
            out = next;
            changed_here.push((bumps[i].0.clone(), bumps[i].1.clone()));
            assert(changed_here.deep_view() =~= before.push(bv[i as int]));
        }
        i = i + 1;
    }
    (out, changed_here)
}

/// What reply a repo's opening waits for.
#[derive(Debug, PartialEq, Eq)]
pub enum OpenStage {
    /// None: it has not begun.
    Start,
    /// The default branch.
    DefaultBranch,
    /// The wave's branch.
    CreateBranch,
    /// The manifest with the given number, on the wave's branch.
    Manifest(usize),
    /// The commit of that manifest, with the bumps that it carries.
    Commit(usize, Vec<(String, String)>),
    /// The change.
    Change,
    /// Auto-merge on the change.
    AutoMerge(OpenedChange),
    /// None: it is done.
    Finished,
}

/// What an [`OpenStage`] says.
pub enum OpenStageView {
    Start,
    DefaultBranch,
    CreateBranch,
    Manifest(int),
    Commit(int, Seq<(Seq<char>, Seq<char>)>),
    Change,
    AutoMerge(OpenedChangeView),
    Finished,
}

impl DeepView for OpenStage {
    type V = OpenStageView;

    open spec fn deep_view(&self) -> OpenStageView {
        match self {
            OpenStage::Start => OpenStageView::Start,
            OpenStage::DefaultBranch => OpenStageView::DefaultBranch,
            OpenStage::CreateBranch => OpenStageView::CreateBranch,
            OpenStage::Manifest(i) => OpenStageView::Manifest(*i as int),
            OpenStage::Commit(i, changed) => OpenStageView::Commit(
                *i as int,
                changed.deep_view(),
            ),
            OpenStage::Change => OpenStageView::Change,
            OpenStage::AutoMerge(c) => OpenStageView::AutoMerge(c.deep_view()),
            OpenStage::Finished => OpenStageView::Finished,
        }
    }
}

/// Why a repo's change could not be opened: what was being done, and the forge's
/// own words.
#[derive(Debug, PartialEq, Eq)]
pub enum OpenError {
    Forge { doing: String, why: String },
    /// A reply to something that was not asked.
    UnexpectedReply,
}

/// What an [`OpenError`] says.
pub enum OpenErrorView {
    Forge { doing: Seq<char>, why: Seq<char> },
    UnexpectedReply,
}

impl DeepView for OpenError {
    type V = OpenErrorView;

    open spec fn deep_view(&self) -> OpenErrorView {
        match self {
            OpenError::Forge { doing, why } => OpenErrorView::Forge { doing: doing@, why: why@ },
            OpenError::UnexpectedReply => OpenErrorView::UnexpectedReply,
        }
    }
}

/// What comes next for a repo's opening.
#[derive(Debug, PartialEq, Eq)]
pub enum OpenProgress {
    /// A request to the forge; the next turn is given its reply.
    Ask(ForgeRequest),
    /// It is done; without an outcome where there was nothing to say.
    Finished(Option<OpenOutcome>),
    /// It had to stop.
    Stopped(OpenError),
}

/// What an [`OpenProgress`] says.
pub enum OpenProgressView {
    Ask(RequestView),
    Finished(Option<OpenOutcomeView>),
    Stopped(OpenErrorView),
}

impl DeepView for OpenProgress {
    type V = OpenProgressView;

    open spec fn deep_view(&self) -> OpenProgressView {
        match self {
            OpenProgress::Ask(r) => OpenProgressView::Ask(r.deep_view()),
            OpenProgress::Finished(o) => OpenProgressView::Finished(o.deep_view()),
            OpenProgress::Stopped(e) => OpenProgressView::Stopped(e.deep_view()),
        }
    }
}

/// Opens (or refreshes) one change that carries every bump of one repo.
#[derive(Debug)]
pub struct Opening {
    pub repo: RepoRef,
    pub manifests: Vec<ManifestBumps>,
    /// The wave's branch.
    pub branch: String,
    /// Arm merge-when-pipeline-succeeds; leave it off to hold the change for
    /// review.
    pub auto_merge: bool,
    pub default_branch: String,
    /// What has been rewritten so far.
    pub bumped: Vec<(String, String)>,
    pub stage: OpenStage,
}

/// What an [`Opening`] says.
pub struct OpeningView {
    pub repo: RepoRefView,
    pub manifests: Seq<ManifestBumpsView>,
    pub branch: Seq<char>,
    pub auto_merge: bool,
    pub default_branch: Seq<char>,
    pub bumped: Seq<(Seq<char>, Seq<char>)>,
    pub stage: OpenStageView,
}

impl DeepView for Opening {
    type V = OpeningView;

    open spec fn deep_view(&self) -> OpeningView {
        OpeningView {
            repo: self.repo.deep_view(),
            manifests: self.manifests.deep_view(),
            branch: self.branch@,
            auto_merge: self.auto_merge,
            default_branch: self.default_branch@,
            bumped: self.bumped.deep_view(),
            stage: self.stage.deep_view(),
        }
    }
}

/// The first manifest from the number `i` on that a provider reads.
pub open spec fn next_readable(chain: Seq<Provider>, ms: Seq<ManifestBumpsView>, i: int) -> int
    decreases ms.len() - i,
{
    if i < 0 || i >= ms.len() {
        ms.len() as int
    } else if provider::provider_for(chain, ms[i].path) is Some {
        i
    } else {
        next_readable(chain, ms, i + 1)
    }
}

impl OpeningView {
    /// At the start.
    pub open spec fn start(group: RepoBumpsView, branch: Seq<char>, auto_merge: bool) -> OpeningView {
        OpeningView {
            repo: group.repo,
            manifests: group.manifests,
            branch,
            auto_merge,
            default_branch: seq![],
            bumped: seq![],
            stage: OpenStageView::Start,
        }
    }

    /// On, with a request.
    pub open spec fn asks(self, stage: OpenStageView, request: RequestView) -> (
        OpeningView,
        OpenProgressView,
    ) {
        (OpeningView { stage, ..self }, OpenProgressView::Ask(request))
    }

    /// Done.
    pub open spec fn finishes(self, outcome: Option<OpenOutcomeView>) -> (
        OpeningView,
        OpenProgressView,
    ) {
        (
            OpeningView { stage: OpenStageView::Finished, ..self },
            OpenProgressView::Finished(outcome),
        )
    }

    /// At an end, without a change.
    pub open spec fn stops(self, error: OpenErrorView) -> (OpeningView, OpenProgressView) {
        (
            OpeningView { stage: OpenStageView::Finished, ..self },
            OpenProgressView::Stopped(error),
        )
    }

    /// On to the manifest with the number `i`, or the next one that a provider
    /// reads. Behind the last one the change is opened, unless nothing was
    /// rewritten.
    pub open spec fn goes_on(self, chain: Seq<Provider>, i: int) -> (OpeningView, OpenProgressView) {
        let j = next_readable(chain, self.manifests, i);
        if j < self.manifests.len() {
            self.asks(
                OpenStageView::Manifest(j),
                RequestView::ReadFile {
                    repo: self.repo,
                    path: self.manifests[j].path,
                    at: self.branch,
                },
            )
        } else if self.bumped.len() == 0 {
            self.finishes(None)
        } else {
            self.asks(
                OpenStageView::Change,
                RequestView::OpenChange {
                    repo: self.repo,
                    branch: self.branch,
                    base: self.default_branch,
                    title: "Bump "@ + summary(self.bumped),
                    body: body_text(self.bumped),
                },
            )
        }
    }

    /// What the manifest with the number `i` does: it is rewritten and committed,
    /// unless it is at every target already.
    pub open spec fn on_manifest(
        self,
        chain: Seq<Provider>,
        i: int,
        content: Seq<char>,
        blob_sha: Seq<char>,
    ) -> (OpeningView, OpenProgressView) {
        let m = self.manifests[i];
        match provider::provider_for(chain, m.path) {
            Some(p) => {
                let (text, changed) = bumped_upto(p, content, m.bumps, m.bumps.len());
                if changed.len() == 0 {
                    self.goes_on(chain, i + 1)
                } else {
                    self.asks(
                        OpenStageView::Commit(i, changed),
                        RequestView::CommitFile {
                            repo: self.repo,
                            branch: self.branch,
                            path: m.path,
                            content: text,
                            blob_sha,
                            message: "Bump "@ + summary(changed),
                        },
                    )
                }
            },
            None => self.goes_on(chain, i + 1),
        }
    }

    /// What the opening of the change comes to.
    pub open spec fn outcome(self, opened: OpenedChangeView) -> OpenOutcomeView {
        OpenOutcomeView {
            repo: self.repo,
            url: opened.change.url,
            already_existed: opened.already_existed,
            bumped: self.bumped,
        }
    }

    /// What is being done where a reply is waited for.
    pub open spec fn doing(self) -> Seq<char> {
        let key = self.repo.key();
        match self.stage {
            OpenStageView::DefaultBranch => "default branch for "@ + key,
            OpenStageView::CreateBranch => "create branch "@ + self.branch + " on "@ + key,
            OpenStageView::Manifest(i) => "read "@ + self.manifests[i].path + " on "@ + key,
            OpenStageView::Commit(i, _) => "commit "@ + self.manifests[i].path + " on "@ + key,
            _ => "open change on "@ + key,
        }
    }

    /// Is the manifest that it waits for there?
    pub open spec fn valid(self) -> bool {
        match self.stage {
            OpenStageView::Manifest(i) => 0 <= i < self.manifests.len(),
            OpenStageView::Commit(i, _) => 0 <= i < self.manifests.len(),
            _ => true,
        }
    }

    /// One turn: it takes the reply that it waits for.
    pub open spec fn advanced(self, chain: Seq<Provider>, reply: Option<ReplyView>) -> (
        OpeningView,
        OpenProgressView,
    ) {
        match (self.stage, reply) {
            (OpenStageView::Start, _) => self.asks(
                OpenStageView::DefaultBranch,
                RequestView::DefaultBranch { repo: self.repo },
            ),
            // Best-effort: auto-merge must not sink an otherwise-good change.
            (
                OpenStageView::AutoMerge(opened),
                Some(ReplyView::AutoMerge(_)) | Some(ReplyView::Failed(_)),
            ) => self.finishes(Some(self.outcome(opened))),
            (OpenStageView::Finished, _) => self.stops(OpenErrorView::UnexpectedReply),
            (_, Some(ReplyView::Failed(why))) => self.stops(
                OpenErrorView::Forge { doing: self.doing(), why },
            ),
            (OpenStageView::DefaultBranch, Some(ReplyView::Branch(b))) => OpeningView {
                default_branch: b,
                ..self
            }.asks(
                OpenStageView::CreateBranch,
                RequestView::CreateBranch { repo: self.repo, branch: self.branch, from: b },
            ),
            (OpenStageView::CreateBranch, Some(ReplyView::Done)) => self.goes_on(chain, 0),
            (OpenStageView::Manifest(i), Some(ReplyView::File(None))) => self.goes_on(chain, i + 1),
            (OpenStageView::Manifest(i), Some(ReplyView::File(Some(blob)))) => self.on_manifest(
                chain,
                i,
                blob.content,
                blob.blob_sha,
            ),
            (OpenStageView::Commit(i, changed), Some(ReplyView::Done)) => OpeningView {
                bumped: self.bumped + changed,
                ..self
            }.goes_on(chain, i + 1),
            (OpenStageView::Change, Some(ReplyView::Opened(opened))) => if self.auto_merge {
                self.asks(
                    OpenStageView::AutoMerge(opened),
                    RequestView::EnableAutoMerge { repo: self.repo, change: opened.change },
                )
            } else {
                self.finishes(Some(self.outcome(opened)))
            },
            _ => self.stops(OpenErrorView::UnexpectedReply),
        }
    }
}

impl Opening {
    /// Starts on one repo.
    pub fn new(group: RepoBumps, branch: &str, auto_merge: bool) -> (r: Self)
        ensures
            r.deep_view() == OpeningView::start(group.deep_view(), branch@, auto_merge),
    {
        let r = Opening {
            repo: group.repo,
            manifests: group.manifests,
            branch: branch.to_owned(),
            auto_merge,
            default_branch: String::new(),
            bumped: Vec::new(),
            stage: OpenStage::Start,
        };
        assert(r.deep_view().default_branch =~= seq![]);
        assert(r.deep_view().bumped =~= seq![]);
        r
    }

    fn ask(self, stage: OpenStage, request: ForgeRequest) -> (r: (Self, OpenProgress))
        ensures
            (r.0.deep_view(), r.1.deep_view()) == self.deep_view().asks(
                stage.deep_view(),
                request.deep_view(),
            ),
    {
        let mut next = self;
        next.stage = stage;
        (next, OpenProgress::Ask(request))
    }

    fn finish(self, outcome: Option<OpenOutcome>) -> (r: (Self, OpenProgress))
        ensures
            (r.0.deep_view(), r.1.deep_view()) == self.deep_view().finishes(outcome.deep_view()),
    {
        let mut next = self;
        next.stage = OpenStage::Finished;
        (next, OpenProgress::Finished(outcome))
    }

    fn stop(self, error: OpenError) -> (r: (Self, OpenProgress))
        ensures
            (r.0.deep_view(), r.1.deep_view()) == self.deep_view().stops(error.deep_view()),
    {
        let mut next = self;
        next.stage = OpenStage::Finished;
        (next, OpenProgress::Stopped(error))
    }

    /// What is being done where a reply is waited for.
    pub fn doing(&self) -> (r: String)
        requires
            self.deep_view().valid(),
        ensures
            r@ == self.deep_view().doing(),
    {
        let key = repo_key(&self.repo);
        match &self.stage {
            OpenStage::DefaultBranch => {
                let mut out = "default branch for ".to_owned();
                out.append(key.as_str());
                out
            },
            OpenStage::CreateBranch => {
                let mut out = "create branch ".to_owned();
                out.append(self.branch.as_str());
                out.append(" on ");
                out.append(key.as_str());
                out
            },
            OpenStage::Manifest(i) => {
                let mut out = "read ".to_owned();
                out.append(self.manifests[*i].path.as_str());
                out.append(" on ");
                out.append(key.as_str());
                out
            },
            OpenStage::Commit(i, _) => {
                let mut out = "commit ".to_owned();
                out.append(self.manifests[*i].path.as_str());
                out.append(" on ");
                out.append(key.as_str());
                out
            },
            _ => {
                let mut out = "open change on ".to_owned();
                out.append(key.as_str());
                out
            },
        }
    }

    /// On to the manifest with the number `start`, or the next one that a
    /// provider reads.
    fn go_on(self, chain: &ProviderChain, start: usize) -> (r: (Self, OpenProgress))
        requires
            start <= self.deep_view().manifests.len(),
        ensures
            (r.0.deep_view(), r.1.deep_view()) == self.deep_view().goes_on(chain@, start as int),
            r.0.deep_view().valid(),
    {
        let ghost ms = self.deep_view().manifests;
        let mut i: usize = start;
        while i < self.manifests.len()
            invariant
                ms == self.manifests.deep_view(),
                start <= i <= self.manifests@.len() == ms.len(),
                next_readable(chain@, ms, start as int) == next_readable(chain@, ms, i as int),
                ms == self.deep_view().manifests,
            decreases self.manifests@.len() - i,
        {
            assert(ms[i as int] == self.manifests@[i as int].deep_view());
            if chain.for_manifest(self.manifests[i].path.as_str()).is_some() {
                // Read from the wave BRANCH: on a refresh this carries prior
                // bumps, so we extend them. Reading the default branch would
                // silently revert them.
                let request = ForgeRequest::ReadFile {
                    repo: self.repo.clone(),
                    path: self.manifests[i].path.clone(),
                    at: self.branch.clone(),
                };
                return self.ask(OpenStage::Manifest(i), request);
            }
            i = i + 1;
        }
        if self.bumped.len() == 0 {
            // Nothing to say. Do NOT open a change — an empty MR is noise, and on
            // a schedule it would be noise every run.
            return self.finish(None);
        }
        let request = ForgeRequest::OpenChange {
            repo: self.repo.clone(),
            branch: self.branch.clone(),
            base: self.default_branch.clone(),
            title: title_of(&self.bumped),
            body: render_body(&self.bumped),
        };
        self.ask(OpenStage::Change, request)
    }

    /// What the manifest with the number `i` does.
    fn take_manifest(self, chain: &ProviderChain, i: usize, content: &str, blob_sha: &String) -> (r:
        (Self, OpenProgress))
        requires
            i < self.deep_view().manifests.len(),
        ensures
            (r.0.deep_view(), r.1.deep_view()) == self.deep_view().on_manifest(
                chain@,
                i as int,
                content@,
                blob_sha@,
            ),
            r.0.deep_view().valid(),
    {
        let n: usize = self.manifests.len();
        assert(i < n);
        assert(self.deep_view().manifests[i as int] == self.manifests@[i as int].deep_view());
        match chain.for_manifest(self.manifests[i].path.as_str()) {
            Some(p) => {
                let (text, changed_here) = apply_bumps(p, content, &self.manifests[i].bumps);
                if changed_here.len() == 0 {
                    // Already at target on this branch — a refresh with nothing
                    // new.
                    return self.go_on(chain, i + 1);
                }
                let request = ForgeRequest::CommitFile {
                    repo: self.repo.clone(),
                    branch: self.branch.clone(),
                    path: self.manifests[i].path.clone(),
                    content: text,
                    blob_sha: blob_sha.clone(),
                    message: title_of(&changed_here),
                };
                self.ask(OpenStage::Commit(i, changed_here), request)
            },
            None => self.go_on(chain, i + 1),
        }
    }

    /// What the opening of the change comes to.
    fn outcome_of(self, opened: &OpenedChange) -> (r: (Self, OpenProgress))
        ensures
            (r.0.deep_view(), r.1.deep_view()) == self.deep_view().finishes(
                Some(self.deep_view().outcome(opened.deep_view())),
            ),
    {
        let outcome = OpenOutcome {
            repo: self.repo.clone(),
            url: opened.change.url.clone(),
            already_existed: opened.already_existed,
            bumped: copy_bumps(&self.bumped),
        };
        self.finish(Some(outcome))
    }

    /// One turn: see [`OpeningView::advanced`].
    pub fn advance(self, chain: &ProviderChain, reply: Option<ForgeReply>) -> (r: (
        Self,
        OpenProgress,
    ))
        requires
            self.deep_view().valid(),
        ensures
            (r.0.deep_view(), r.1.deep_view()) == self.deep_view().advanced(
                chain@,
                reply.deep_view(),
            ),
            r.0.deep_view().valid(),
    {
        let mut this = self;
        let mut stage = OpenStage::Finished;
        let ghost before = this.deep_view();
        match &this.stage {
            OpenStage::Start => {
                let request = ForgeRequest::DefaultBranch { repo: this.repo.clone() };
                return this.ask(OpenStage::DefaultBranch, request);
            },
            OpenStage::Finished => {
                return this.stop(OpenError::UnexpectedReply);
            },
            _ => {},
        }
        let reply = match reply {
            Some(r) => r,
            None => {
                return this.stop(OpenError::UnexpectedReply);
            },
        };
        if let ForgeReply::Failed(why) = reply {
            return match &this.stage {
                OpenStage::AutoMerge(opened) => {
                    let opened = opened.clone();
                    this.outcome_of(&opened)
                },
                _ => {
                    let doing = this.doing();
                    this.stop(OpenError::Forge { doing, why })
                },
            };
        }
        std::mem::swap(&mut this.stage, &mut stage);
        match (stage, reply) {
            (OpenStage::AutoMerge(opened), ForgeReply::AutoMerge(_)) => this.outcome_of(&opened),
            (OpenStage::DefaultBranch, ForgeReply::Branch(b)) => {
                // Idempotent: an existing branch is returned, not an error. Created
                // up front so the reads below see prior commits when this is a
                // refresh.
                let request = ForgeRequest::CreateBranch {
                    repo: this.repo.clone(),
                    branch: this.branch.clone(),
                    from: b.clone(),
                };
                this.default_branch = b;
                this.ask(OpenStage::CreateBranch, request)
            },
            (OpenStage::CreateBranch, ForgeReply::Done) => this.go_on(chain, 0),
            (OpenStage::Manifest(i), ForgeReply::File(None)) => {
                let n: usize = this.manifests.len();
                assert(i < n);
                this.go_on(chain, i + 1)
            },
            (OpenStage::Manifest(i), ForgeReply::File(Some(blob))) => this.take_manifest(
                chain,
                i,
                blob.content.as_str(),
                &blob.blob_sha,
            ),
            (OpenStage::Commit(i, changed), ForgeReply::Done) => {
                let n: usize = this.manifests.len();
                assert(i < n);
                let mut changed = changed;
                let ghost all = this.bumped.deep_view() + changed.deep_view();
                this.bumped.append(&mut changed);
                assert(this.bumped.deep_view() =~= all);
                this.go_on(chain, i + 1)
            },
            (OpenStage::Change, ForgeReply::Opened(opened)) => {
                if this.auto_merge {
                    let request = ForgeRequest::EnableAutoMerge {
                        repo: this.repo.clone(),
                        change: opened.change.clone(),
                    };
                    this.ask(OpenStage::AutoMerge(opened), request)
                } else {
                    this.outcome_of(&opened)
                }
            },
            _ => this.stop(OpenError::UnexpectedReply),
        }
    }
}

/// A copy of a list of bumps.
fn copy_bumps(v: &Vec<(String, String)>) -> (r: Vec<(String, String)>)
    ensures
        r.deep_view() == v.deep_view(),
{
    let mut out: Vec<(String, String)> = Vec::new();
    let mut i: usize = 0;
    while i < v.len()
        invariant
            i <= v@.len(),
            out@.len() == i,
            forall|j: int| 0 <= j < i ==> (#[trigger] out@[j]).deep_view() == v@[j].deep_view(),
        decreases v@.len() - i,
    {
        out.push((v[i].0.clone(), v[i].1.clone()));
        i = i + 1;
    }
    assert(out.deep_view() =~= v.deep_view());
    out
}

/// A change is opened only with something to say: for one or more bumps that
/// were written and committed.
pub proof fn no_empty_change(o: OpeningView, chain: Seq<Provider>, reply: Option<ReplyView>)
    ensures
        o.advanced(chain, reply).1 matches OpenProgressView::Ask(
            RequestView::OpenChange { .. },
        ) ==> o.advanced(chain, reply).0.bumped.len() > 0,
        o.advanced(chain, reply).1 matches OpenProgressView::Ask(
            RequestView::CommitFile { .. },
        ) ==> (o.advanced(chain, reply).0.stage matches OpenStageView::Commit(_, changed)
            && changed.len() > 0),
{
}

/// Manifests are read and committed on the wave's branch, never on the default
/// branch.
pub proof fn works_on_its_branch(o: OpeningView, chain: Seq<Provider>, reply: Option<ReplyView>)
    ensures
        o.advanced(chain, reply).1 matches OpenProgressView::Ask(
            RequestView::ReadFile { at, .. },
        ) ==> at == o.branch,
        o.advanced(chain, reply).1 matches OpenProgressView::Ask(
            RequestView::CommitFile { branch, .. },
        ) ==> branch == o.branch,
        o.advanced(chain, reply).0.branch == o.branch,
        o.advanced(chain, reply).0.repo == o.repo,
        o.advanced(chain, reply).0.manifests == o.manifests,
{
}

// ─── what a change carries ──────────────────────────────────────────────

/// The bumps at the places where writing them changed the text.
pub open spec fn changing(bumps: Seq<(Seq<char>, Seq<char>)>, ts: Seq<Seq<char>>) -> spec_fn(
    int,
) -> Option<(Seq<char>, Seq<char>)> {
    |i: int|
        if ts[i + 1] != ts[i] {
            Some(bumps[i])
        } else {
            None
        }
}

/// The first `n` places.
pub open spec fn first_places(n: nat) -> Seq<int> {
    Seq::new(n, |i: int| i)
}

proof fn steps_upto(
    p: Provider,
    text: Seq<char>,
    bumps: Seq<(Seq<char>, Seq<char>)>,
    ts: Seq<Seq<char>>,
    n: nat,
)
    requires
        cascade::are_steps(p, text, bumps, ts),
        n <= bumps.len(),
    ensures
        bumped_upto(p, text, bumps, n).0 == ts[n as int],
        select::is_selection(
            first_places(n),
            bumped_upto(p, text, bumps, n).1,
            changing(bumps, ts),
        ),
    decreases n,
{
    let pick = changing(bumps, ts);
    if n == 0 {
        select::nothing_selected(first_places(0), bumped_upto(p, text, bumps, 0).1, pick);
    } else {
        let k: int = n - 1;
        steps_upto(p, text, bumps, ts, k as nat);
        assert(bumps[k] == (bumps[k].0, bumps[k].1));
        assert(ts[k + 1] == p.bumped(ts[k], bumps[k].0, bumps[k].1));
        select::one_more_selected(
            first_places(k as nat),
            bumped_upto(p, text, bumps, k as nat).1,
            pick,
            k,
        );
        assert(first_places(k as nat).push(k) =~= first_places(n));
    }
}

/// A manifest is bumped in turn: it comes out with every bump written, each into
/// what the one before it left, and just those bumps that changed it are listed, in
/// order.
pub proof fn bumps_are_written_in_turn(
    p: Provider,
    text: Seq<char>,
    bumps: Seq<(Seq<char>, Seq<char>)>,
    ts: Seq<Seq<char>>,
)
    requires
        cascade::are_steps(p, text, bumps, ts),
    ensures
        bumped_upto(p, text, bumps, bumps.len()).0 == ts.last(),
        select::is_selection(
            first_places(bumps.len()),
            bumped_upto(p, text, bumps, bumps.len()).1,
            changing(bumps, ts),
        ),
{
    steps_upto(p, text, bumps, ts, bumps.len());
}

/// Nothing that is listed as written is lost on the way: where bumps of different
/// modules keep apart, the manifest that comes out is at every target.
pub proof fn written_bumps_stay_written(
    p: Provider,
    text: Seq<char>,
    bumps: Seq<(Seq<char>, Seq<char>)>,
    i: int,
)
    requires
        cascade::keeps_apart(p),
        cascade::modules_differ(bumps),
        0 <= i < bumps.len(),
    ensures
        ({
            let out = bumped_upto(p, text, bumps, bumps.len()).0;
            p.bumped(out, bumps[i].0, bumps[i].1) == out
        }),
{
    let ts = cascade::steps_exist(p, text, bumps);
    bumps_are_written_in_turn(p, text, bumps, ts);
    cascade::steps_lose_nothing(p, text, bumps, ts, i, bumps.len() as int);
}

/// A manifest that was read is committed with its bumps written in turn, in the
/// place of what was read, on the wave's branch and under its own path; where no
/// bump changes it there is no commit, and what the change lists stays.
pub proof fn commits_the_bumped_manifest(
    o: OpeningView,
    chain: Seq<Provider>,
    i: int,
    content: Seq<char>,
    blob_sha: Seq<char>,
    p: Provider,
    ts: Seq<Seq<char>>,
)
    requires
        o.stage == OpenStageView::Manifest(i),
        0 <= i < o.manifests.len(),
        provider::provider_for(chain, o.manifests[i].path) == Some(p),
        cascade::are_steps(p, content, o.manifests[i].bumps, ts),
    ensures
        ({
            let blob = crate::forge::FileBlobView { content, blob_sha };
            let (next, progress) = o.advanced(chain, Some(ReplyView::File(Some(blob))));
            let n = o.manifests[i].bumps.len();
            &&& (exists|k: int| 0 <= k < n && ts[k + 1] != #[trigger] ts[k])
                ==> (progress matches OpenProgressView::Ask(
                RequestView::CommitFile { repo, branch, path, content: c, blob_sha: b, .. },
            ) && repo == o.repo && branch == o.branch && path == o.manifests[i].path && c
                == ts.last() && b == blob_sha) && (next.stage matches OpenStageView::Commit(
                j,
                listed,
            ) && j == i && select::is_selection(
                first_places(n),
                listed,
                changing(o.manifests[i].bumps, ts),
            ))
            &&& (forall|k: int| 0 <= k < n ==> ts[k + 1] == #[trigger] ts[k])
                ==> !(progress matches OpenProgressView::Ask(RequestView::CommitFile { .. }))
            &&& next.bumped == o.bumped
        }),
{
    let bumps = o.manifests[i].bumps;
    let n = bumps.len();
    bumps_are_written_in_turn(p, content, bumps, ts);
    let listed = bumped_upto(p, content, bumps, n).1;
    if exists|k: int| 0 <= k < n && ts[k + 1] != #[trigger] ts[k] {
        let k = choose|k: int| 0 <= k < n && ts[k + 1] != #[trigger] ts[k];
        assert(first_places(n)[k] == k);
        select::selection_holds(first_places(n), listed, changing(bumps, ts), bumps[k]);
        assert(listed.contains(bumps[k]));
    } else {
        if listed.len() > 0 {
            select::selection_holds(first_places(n), listed, changing(bumps, ts), listed[0]);
            assert(listed.contains(listed[0]));
            let k = choose|k: int|
                0 <= k < n && changing(bumps, ts)(#[trigger] first_places(n)[k]) == Some(listed[0]);
            assert(ts[k + 1] == ts[k]);
        }
    }
}

/// Can some provider of the chain read a manifest of that name?
pub open spec fn is_readable(chain: Seq<Provider>, path: Seq<char>) -> bool {
    exists|k: int| 0 <= k < chain.len() && (#[trigger] chain[k]).manifest() == path
}

proof fn next_readable_is(chain: Seq<Provider>, ms: Seq<ManifestBumpsView>, i: int)
    requires
        0 <= i <= ms.len(),
    ensures
        i <= next_readable(chain, ms, i) <= ms.len(),
        next_readable(chain, ms, i) < ms.len() ==> is_readable(
            chain,
            ms[next_readable(chain, ms, i)].path,
        ),
        forall|k: int|
            i <= k < next_readable(chain, ms, i) ==> !is_readable(
                chain,
                (#[trigger] ms[k]).path,
            ),
    decreases ms.len() - i,
{
    if i < ms.len() {
        provider::first_provider_is_chosen(chain, ms[i].path);
        next_readable_is(chain, ms, i + 1);
    }
}

/// The place of the first manifest that is still to be read.
pub open spec fn still_to_read(stage: OpenStageView) -> int {
    match stage {
        OpenStageView::Manifest(i) => i + 1,
        OpenStageView::Commit(i, _) => i + 1,
        _ => 0,
    }
}

/// No manifest is passed over: whenever one is asked for, those before it that have
/// not been read cannot be read by any provider; and where the change is opened, or
/// there is nothing to open, no manifest is left that any provider can read.
pub proof fn every_manifest_is_read(o: OpeningView, chain: Seq<Provider>, reply: ReplyView)
    requires
        o.valid(),
        o.stage is CreateBranch || o.stage is Manifest || o.stage is Commit,
    ensures
        ({
            let (next, progress) = o.advanced(chain, Some(reply));
            let from = still_to_read(o.stage);
            &&& progress matches OpenProgressView::Ask(RequestView::ReadFile { repo, path, at })
                ==> exists|j: int| #[trigger]
                reads_at(o, chain, from, j) && next.stage == OpenStageView::Manifest(j) && path
                    == o.manifests[j].path && repo == o.repo && at == o.branch
            &&& progress matches OpenProgressView::Ask(RequestView::OpenChange { .. }) ==> forall|
                k: int,
            |
                from <= k < o.manifests.len() ==> !is_readable(
                    chain,
                    (#[trigger] o.manifests[k]).path,
                )
            &&& progress matches OpenProgressView::Finished(outcome) ==> outcome is None && (forall|
                k: int,
            |
                from <= k < o.manifests.len() ==> !is_readable(
                    chain,
                    (#[trigger] o.manifests[k]).path,
                ))
        }),
{
    let from = still_to_read(o.stage);
    next_readable_is(chain, o.manifests, from);
    let j = next_readable(chain, o.manifests, from);
    if j < o.manifests.len() {
        assert(reads_at(o, chain, from, j));
    }
}

/// Is the manifest at `j` the first one from `from` on that a provider can read?
pub open spec fn reads_at(o: OpeningView, chain: Seq<Provider>, from: int, j: int) -> bool {
    &&& from <= j < o.manifests.len()
    &&& is_readable(chain, o.manifests[j].path)
    &&& forall|k: int| from <= k < j ==> !is_readable(chain, (#[trigger] o.manifests[k]).path)
}

/// What the change lists is what was committed: each commit that is done adds the
/// bumps that it carries behind those before it, and nothing else adds or drops any.
pub proof fn change_lists_what_was_committed(
    o: OpeningView,
    chain: Seq<Provider>,
    reply: Option<ReplyView>,
)
    ensures
        o.stage matches OpenStageView::Commit(_, carried) ==> reply == Some(ReplyView::Done)
            ==> o.advanced(chain, reply).0.bumped == o.bumped + carried,
        !(o.stage is Commit && reply == Some(ReplyView::Done)) ==> o.advanced(chain, reply).0.bumped
            == o.bumped,
        o.advanced(chain, reply).1 matches OpenProgressView::Ask(
            RequestView::OpenChange { repo, branch, base, title, body },
        ) ==> {
            let listed = o.advanced(chain, reply).0.bumped;
            &&& repo == o.repo
            &&& branch == o.branch
            &&& base == o.default_branch
            &&& title == "Bump "@ + summary(listed)
            &&& body == body_text(listed)
        },
{
}

/// How an opening begins: the default branch is asked for, and the wave's branch is
/// made from what the forge names.
pub proof fn opening_branches_off_the_default(o: OpeningView, chain: Seq<Provider>, b: Seq<char>)
    ensures
        o.stage is Start ==> forall|reply: Option<ReplyView>|
            (#[trigger] o.advanced(chain, reply)).1 == OpenProgressView::Ask(
                RequestView::DefaultBranch { repo: o.repo },
            ) && o.advanced(chain, reply).0.stage is DefaultBranch,
        o.stage is DefaultBranch ==> ({
            let (next, progress) = o.advanced(chain, Some(ReplyView::Branch(b)));
            &&& progress == OpenProgressView::Ask(
                RequestView::CreateBranch { repo: o.repo, branch: o.branch, from: b },
            )
            &&& next.default_branch == b
            &&& next.stage is CreateBranch
        }),
        forall|reply: Option<ReplyView>|
            !(o.stage is DefaultBranch) ==> (#[trigger] o.advanced(chain, reply)).0.default_branch
                == o.default_branch,
{
}

/// How an opening ends: once the change is open, it is armed to merge itself just
/// where that was asked for; and whatever comes of that, the outcome is the change
/// that the forge named, with every bump that was committed.
pub proof fn opening_ends_with_the_change(
    o: OpeningView,
    chain: Seq<Provider>,
    opened: OpenedChangeView,
    reply: ReplyView,
)
    ensures
        ({
            let outcome = OpenOutcomeView {
                repo: o.repo,
                url: opened.change.url,
                already_existed: opened.already_existed,
                bumped: o.bumped,
            };
            let (next, progress) = o.advanced(chain, Some(ReplyView::Opened(opened)));
            &&& o.stage is Change && o.auto_merge ==> progress == OpenProgressView::Ask(
                RequestView::EnableAutoMerge { repo: o.repo, change: opened.change },
            ) && next.stage == OpenStageView::AutoMerge(opened)
            &&& o.stage is Change && !o.auto_merge ==> progress == OpenProgressView::Finished(
                Some(outcome),
            )
            &&& o.stage == OpenStageView::AutoMerge(opened) && (reply is AutoMerge || reply
                is Failed) ==> o.advanced(chain, Some(reply)).1 == OpenProgressView::Finished(
                Some(outcome),
            )
        }),
        o.advanced(chain, Some(reply)).0.auto_merge == o.auto_merge,
{
}

/// A forge that fails stops the opening, with its own words, at any step but the
/// arming of auto-merge, which is no reason to.
pub proof fn opening_stops_where_the_forge_fails(
    o: OpeningView,
    chain: Seq<Provider>,
    why: Seq<char>,
)
    requires
        !(o.stage is Start || o.stage is Finished || o.stage is AutoMerge),
    ensures
        o.advanced(chain, Some(ReplyView::Failed(why))).1 matches OpenProgressView::Stopped(
            OpenErrorView::Forge { why: said, doing },
        ) && said == why && doing == (match o.stage {
            OpenStageView::DefaultBranch => "default branch for "@ + o.repo.key(),
            OpenStageView::CreateBranch => "create branch "@ + o.branch + " on "@ + o.repo.key(),
            OpenStageView::Manifest(i) => "read "@ + o.manifests[i].path + " on "@ + o.repo.key(),
            OpenStageView::Commit(i, _) => "commit "@ + o.manifests[i].path + " on "@
                + o.repo.key(),
            _ => "open change on "@ + o.repo.key(),
        }),
{
}

/// The list in a change's description: one line per bump, in order, whatever stands
/// before and behind.
pub proof fn body_has_one_line_per_bump(
    a: Seq<(Seq<char>, Seq<char>)>,
    m: Seq<char>,
    v: Seq<char>,
    b: Seq<(Seq<char>, Seq<char>)>,
)
    ensures
        bump_lines(a.push((m, v)) + b) == bump_lines(a) + "- `"@ + m + "` → `"@ + v + "`\n"@
            + bump_lines(b),
        bump_lines(seq![]) == Seq::<char>::empty(),
        body_text(a) == "Opened by `wave discover --open`.\n\n"@ + bump_lines(a),
    decreases b.len(),
{
    let one = a.push((m, v));
    if b.len() == 0 {
        assert(one + b =~= one);
        assert(one.drop_last() =~= a);
        assert(bump_lines(a) + "- `"@ + m + "` → `"@ + v + "`\n"@ + bump_lines(b) =~= bump_lines(one));
    } else {
        assert((one + b).drop_last() =~= one + b.drop_last());
        body_has_one_line_per_bump(a, m, v, b.drop_last());
        let head = bump_lines(a) + "- `"@ + m + "` → `"@ + v + "`\n"@;
        let tail = "- `"@ + b.last().0 + "` → `"@ + b.last().1 + "`\n"@;
        assert(bump_lines(one + b) =~= head + bump_lines(b.drop_last()) + tail);
        assert(bump_lines(b) =~= bump_lines(b.drop_last()) + tail);
        assert(head + bump_lines(b) =~= head + bump_lines(b.drop_last()) + tail);
    }
}

/// A title names the one bump there is, and counts them where there are more.
pub proof fn title_names_or_counts(bumped: Seq<(Seq<char>, Seq<char>)>)
    ensures
        bumped.len() == 1 ==> summary(bumped) == bumped[0].0 + " to "@ + bumped[0].1,
        bumped.len() != 1 ==> summary(bumped) == text::decimal(bumped.len()) + " dependencies"@,
{
}

/// Every repo and every manifest that a grouping lists comes from a candidate, and
/// none of them is listed without a bump.
pub proof fn groups_come_from_candidates(cs: Seq<CandidateView>, g: int, m: int)
    ensures
        0 <= g < grouped(cs).len() ==> (exists|i: int|
            0 <= i < cs.len() && (#[trigger] cs[i]).repo == grouped(cs)[g].repo) && grouped(
            cs,
        )[g].manifests.len() > 0,
        0 <= g < grouped(cs).len() && 0 <= m < grouped(cs)[g].manifests.len() ==> grouped(
            cs,
        )[g].manifests[m].bumps.len() > 0,
    decreases cs.len(),
{
    if cs.len() > 0 {
        let init = cs.drop_last();
        let c = cs.last();
        assert(cs[cs.len() - 1] == c);
        assert forall|k: int, l: int|
            0 <= k < grouped(init).len() && 0 <= l < (#[trigger] grouped(
                init,
            )[k]).manifests.len() implies (#[trigger] grouped(init)[k].manifests[l]).bumps.len()
            > 0 by {
            groups_come_from_candidates(init, k, l);
        }
        assert forall|k: int| 0 <= k < grouped(init).len() implies (exists|i: int|
            0 <= i < cs.len() && (#[trigger] cs[i]).repo == grouped(init)[k].repo) && (
        #[trigger] grouped(init)[k]).manifests.len() > 0 by {
            groups_come_from_candidates(init, k, 0);
            let i = choose|i: int|
                0 <= i < init.len() && (#[trigger] init[i]).repo == grouped(init)[k].repo;
            assert(cs[i].repo == grouped(init)[k].repo);
        }
        candidate_fills_groups(grouped(init), c);
        if 0 <= g < grouped(cs).len() {
            assert(grouped(cs)[g].repo == c.repo || exists|k: int|
                0 <= k < grouped(init).len() && (#[trigger] grouped(init)[k]).repo == grouped(
                    cs,
                )[g].repo);
            if grouped(cs)[g].repo != c.repo {
                let k = choose|k: int|
                    0 <= k < grouped(init).len() && (#[trigger] grouped(init)[k]).repo == grouped(
                        cs,
                    )[g].repo;
                let i = choose|i: int|
                    0 <= i < cs.len() && (#[trigger] cs[i]).repo == grouped(init)[k].repo;
                assert(cs[i].repo == grouped(cs)[g].repo);
            }
        }
    }
}

/// Does every manifest have a bump?
spec fn all_bumped(ms: Seq<ManifestBumpsView>) -> bool {
    forall|l: int| 0 <= l < ms.len() ==> (#[trigger] ms[l]).bumps.len() > 0
}

proof fn bump_fills_manifests(
    ms: Seq<ManifestBumpsView>,
    path: Seq<char>,
    bump: (Seq<char>, Seq<char>),
)
    requires
        all_bumped(ms),
    ensures
        all_bumped(with_bump(ms, path, bump)),
        with_bump(ms, path, bump).len() > 0,
    decreases ms.len(),
{
    let r = with_bump(ms, path, bump);
    if ms.len() > 0 && ms[0].path != path && !text::text_lt(path, ms[0].path) {
        let tail = ms.skip(1);
        assert forall|l: int| 0 <= l < tail.len() implies (#[trigger] tail[l]).bumps.len() > 0 by {
            assert(tail[l] == ms[l + 1]);
        }
        bump_fills_manifests(tail, path, bump);
        assert forall|l: int| 0 <= l < r.len() implies (#[trigger] r[l]).bumps.len() > 0 by {
            if l > 0 {
                assert(r[l] == with_bump(tail, path, bump)[l - 1]);
            } else {
                assert(r[0] == ms[0]);
            }
        }
    } else if ms.len() > 0 && ms[0].path == path {
        assert forall|l: int| 0 <= l < r.len() implies (#[trigger] r[l]).bumps.len() > 0 by {
            if l > 0 {
                assert(r[l] == ms[l]);
            }
        }
    } else {
        assert forall|l: int| 0 <= l < r.len() implies (#[trigger] r[l]).bumps.len() > 0 by {
            if l > 0 {
                assert(r[l] == ms[l - 1]);
            }
        }
    }
}

proof fn candidate_fills_groups(gs: Seq<RepoBumpsView>, c: CandidateView)
    requires
        forall|k: int, l: int|
            0 <= k < gs.len() && 0 <= l < (#[trigger] gs[k]).manifests.len() ==> (
            #[trigger] gs[k].manifests[l]).bumps.len() > 0,
        forall|k: int| 0 <= k < gs.len() ==> (#[trigger] gs[k]).manifests.len() > 0,
    ensures
        ({
            let r = with_candidate(gs, c);
            &&& forall|k: int|
                0 <= k < r.len() ==> all_bumped((#[trigger] r[k]).manifests)
                    && r[k].manifests.len() > 0 && (r[k].repo == c.repo || exists|j: int|
                    0 <= j < gs.len() && (#[trigger] gs[j]).repo == r[k].repo)
        }),
    decreases gs.len(),
{
    let r = with_candidate(gs, c);
    let bump = (c.module, c.latest);
    bump_fills_manifests(seq![], c.manifest_path, bump);
    assert forall|k: int| 0 <= k < gs.len() implies all_bumped((#[trigger] gs[k]).manifests) by {
        assert forall|l: int| 0 <= l < gs[k].manifests.len() implies (
        #[trigger] gs[k].manifests[l]).bumps.len() > 0 by {
            assert(gs[k].manifests[l].bumps.len() > 0);
        }
    }
    if gs.len() > 0 && gs[0].repo.key() == c.repo.key() {
        bump_fills_manifests(gs[0].manifests, c.manifest_path, bump);
        assert forall|k: int| 0 <= k < r.len() implies all_bumped((#[trigger] r[k]).manifests)
            && r[k].manifests.len() > 0 && (r[k].repo == c.repo || exists|j: int|
            0 <= j < gs.len() && (#[trigger] gs[j]).repo == r[k].repo) by {
            assert(r[k].repo == gs[k].repo);
            if k > 0 {
                assert(r[k] == gs[k]);
            }
        }
    } else if gs.len() > 0 && !text::text_lt(c.repo.key(), gs[0].repo.key()) {
        let tail = gs.skip(1);
        assert forall|k: int, l: int|
            0 <= k < tail.len() && 0 <= l < (#[trigger] tail[k]).manifests.len() implies (
        #[trigger] tail[k].manifests[l]).bumps.len() > 0 by {
            assert(gs[k + 1].manifests[l].bumps.len() > 0);
        }
        assert forall|k: int| 0 <= k < tail.len() implies (#[trigger] tail[k]).manifests.len()
            > 0 by {
            assert(tail[k] == gs[k + 1]);
        }
        candidate_fills_groups(tail, c);
        let t = with_candidate(tail, c);
        assert forall|k: int| 0 <= k < r.len() implies all_bumped((#[trigger] r[k]).manifests)
            && r[k].manifests.len() > 0 && (r[k].repo == c.repo || exists|j: int|
            0 <= j < gs.len() && (#[trigger] gs[j]).repo == r[k].repo) by {
            if k == 0 {
                assert(r[0] == gs[0]);
            } else {
                assert(r[k] == t[k - 1]);
                if t[k - 1].repo != c.repo {
                    let j = choose|j: int|
                        0 <= j < tail.len() && (#[trigger] tail[j]).repo == t[k - 1].repo;
                    assert(gs[j + 1].repo == r[k].repo);
                }
            }
        }
    } else {
        assert forall|k: int| 0 <= k < r.len() implies all_bumped((#[trigger] r[k]).manifests)
            && r[k].manifests.len() > 0 && (r[k].repo == c.repo || exists|j: int|
            0 <= j < gs.len() && (#[trigger] gs[j]).repo == r[k].repo) by {
            if k > 0 {
                assert(r[k] == gs[k - 1]);
            }
        }
    }
}

} // verus!
