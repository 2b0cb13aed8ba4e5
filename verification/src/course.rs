//! The course of an item: what is asked of the forge on the way, what each reply
//! brings about, and what of the item it leaves alone.
use vstd::prelude::*;

use crate::cascade::{
    self, BumpView, ItemStepView, NextView, ReplyView, RequestView, RunErrorView, StageView,
};
use crate::forge::{ChangeRefView, ChangeState, CiStatus, FileBlobView, OpenedChangeView, RepoRefView};
use crate::graph::{PlanItemView, WavePlanView};
use crate::pb::{WaveEventView, WaveItemState, WaveItemView, WaveState, WaveView};
use crate::provider::{self, GraphProvider, Provider};
use crate::runner::{self, ItemActionView, ProgressView, RunnerView};

verus! {

/// The repo that a request is about.
pub open spec fn repo_of(request: RequestView) -> RepoRefView {
    match request {
        RequestView::DefaultBranch { repo } => repo,
        RequestView::ReadFile { repo, .. } => repo,
        RequestView::CreateBranch { repo, .. } => repo,
        RequestView::CommitFile { repo, .. } => repo,
        RequestView::OpenChange { repo, .. } => repo,
        RequestView::EnableAutoMerge { repo, .. } => repo,
        RequestView::ChangeState { repo, .. } => repo,
        RequestView::PipelineStatus { repo, .. } => repo,
        RequestView::Merge { repo, .. } => repo,
    }
}

/// What a step asks of the forge, if it asks.
pub open spec fn asked(step: ItemStepView) -> Option<RequestView> {
    match step.next {
        NextView::Ask(_, request) => Some(request),
        _ => None,
    }
}

/// The stage that a step waits in.
pub open spec fn waiting(step: ItemStepView) -> StageView {
    match step.next {
        NextView::Ask(stage, _) => stage,
        _ => StageView::Idle,
    }
}

/// The version that a manifest declares; empty where it declares none.
pub open spec fn declares(p: Provider, text: Seq<char>) -> Seq<char> {
    match p.version_in(text) {
        Some(v) => v,
        None => Seq::empty(),
    }
}

// ─── opening ────────────────────────────────────────────────────────────

/// How a bump is opened, where the forge does all that it is asked: the default
/// branch is looked up and the manifest read from it; the manifest with every target
/// written goes on the wave's branch, made from the default one; a change merges that
/// branch back into it; and the change is armed to merge itself. The item ends up
/// with that change, with the targets it was opened for, and with its own version
/// from before the bump; it waits for the pipeline where the change is armed, and to
/// be merged where it is not.
pub proof fn opening_runs_its_course(
    chain: Seq<Provider>,
    id: Seq<char>,
    item: WaveItemView,
    targets: Seq<(Seq<char>, Seq<char>)>,
    repo: RepoRefView,
    p: Provider,
    b: Seq<char>,
    blob: FileBlobView,
    opened: OpenedChangeView,
    last: ReplyView,
    ts: Seq<Seq<char>>,
    now: Seq<char>,
)
    requires
        item.repo == Some(repo),
        provider::provider_for(chain, item.manifest_path) == Some(p),
        cascade::are_steps(p, blob.content, targets, ts),
        exists|k: int| 0 <= k < targets.len() && ts[k + 1] != #[trigger] ts[k],
        last is AutoMerge || last is Failed,
    ensures
        ({
            let s0 = cascade::begins(chain, id, item, ItemActionView::Open(targets), now);
            let s1 = cascade::responds(chain, id, s0.item, waiting(s0), ReplyView::Branch(b), now);
            let s2 = cascade::responds(
                chain,
                id,
                s1.item,
                waiting(s1),
                ReplyView::File(Some(blob)),
                now,
            );
            let s3 = cascade::responds(chain, id, s2.item, waiting(s2), ReplyView::Done, now);
            let s4 = cascade::responds(chain, id, s3.item, waiting(s3), ReplyView::Done, now);
            let s5 = cascade::responds(
                chain,
                id,
                s4.item,
                waiting(s4),
                ReplyView::Opened(opened),
                now,
            );
            let s6 = cascade::responds(chain, id, s5.item, waiting(s5), last, now);
            let summary = runner::summary_of(targets);
            &&& asked(s0) == Some(RequestView::DefaultBranch { repo })
            &&& asked(s1) == Some(
                RequestView::ReadFile { repo, path: item.manifest_path, at: Seq::empty() },
            )
            &&& asked(s2) == Some(RequestView::CreateBranch { repo, branch: item.branch, from: b })
            &&& asked(s3) == Some(
                RequestView::CommitFile {
                    repo,
                    branch: item.branch,
                    path: item.manifest_path,
                    content: ts.last(),
                    blob_sha: blob.blob_sha,
                    message: "Bump "@ + summary,
                },
            )
            &&& asked(s4) == Some(
                RequestView::OpenChange {
                    repo,
                    branch: item.branch,
                    base: b,
                    title: "Bump "@ + summary,
                    body: "Wave `"@ + id + "`\n\nBumps "@ + summary + ".\n"@,
                },
            )
            &&& asked(s5) == Some(RequestView::EnableAutoMerge { repo, change: opened.change })
            &&& s0.event is None && s1.event is None && s2.event is None && s3.event is None
                && s4.event is None && s5.event is None
            &&& s6.event is Some
            &&& s6.item == (WaveItemView {
                upstream_targets: targets,
                baseline_version: declares(p, blob.content),
                change: Some(opened.change),
                state: (if last == ReplyView::AutoMerge(true) {
                    WaveItemState::CiRunning
                } else {
                    WaveItemState::MrOpen
                }).number(),
                updated_at: now,
                ..item
            })
        }),
{
    cascade::targets_are_written_in_turn(p, blob.content, targets, ts);
    let s0 = cascade::begins(chain, id, item, ItemActionView::Open(targets), now);
    assert(s0.item == item && waiting(s0) == StageView::OpenBranch(targets));
    let s1 = cascade::responds(chain, id, s0.item, waiting(s0), ReplyView::Branch(b), now);
    assert(s1.item == item && waiting(s1) == (StageView::OpenManifest {
        targets,
        default_branch: b,
    }));
    let s2 = cascade::responds(chain, id, s1.item, waiting(s1), ReplyView::File(Some(blob)), now);
    let bump = BumpView {
        targets,
        default_branch: b,
        text: ts.last(),
        blob_sha: blob.blob_sha,
        baseline: declares(p, blob.content),
    };
    assert(s2.item == (WaveItemView { upstream_targets: targets, ..item }));
    assert(waiting(s2) == StageView::OpenCreate(bump));
    let s3 = cascade::responds(chain, id, s2.item, waiting(s2), ReplyView::Done, now);
    assert(waiting(s3) == StageView::OpenCommit(bump));
    let s4 = cascade::responds(chain, id, s3.item, waiting(s3), ReplyView::Done, now);
    assert(waiting(s4) == StageView::OpenChange(bump));
    let s5 = cascade::responds(chain, id, s4.item, waiting(s4), ReplyView::Opened(opened), now);
    assert(waiting(s5) == (StageView::OpenAutoMerge { bump, change: opened.change }));
}

/// A manifest that no target changes is left alone: the item is skipped, with the
/// version that its repo publishes already.
pub proof fn nothing_to_bump_is_skipped(
    chain: Seq<Provider>,
    id: Seq<char>,
    item: WaveItemView,
    targets: Seq<(Seq<char>, Seq<char>)>,
    p: Provider,
    b: Seq<char>,
    blob: FileBlobView,
    ts: Seq<Seq<char>>,
    now: Seq<char>,
)
    requires
        item.repo is Some,
        provider::provider_for(chain, item.manifest_path) == Some(p),
        cascade::are_steps(p, blob.content, targets, ts),
        forall|k: int| 0 <= k < targets.len() ==> ts[k + 1] == #[trigger] ts[k],
    ensures
        ({
            let stage = StageView::OpenManifest { targets, default_branch: b };
            let s = cascade::responds(
                chain,
                id,
                item,
                stage,
                ReplyView::File(Some(blob)),
                now,
            );
            &&& asked(s) is None
            &&& s.item == (WaveItemView {
                upstream_targets: targets,
                published_version: declares(p, blob.content),
                state: WaveItemState::Skipped.number(),
                updated_at: now,
                ..item
            })
        }),
{
    cascade::targets_are_written_in_turn(p, blob.content, targets, ts);
}

// ─── transitions ────────────────────────────────────────────────────────

/// Does the step make the transition to `to`?
pub open spec fn goes_to(step: ItemStepView, to: WaveItemState) -> bool {
    step.event matches Some(e) && e.to_state == to.number()
}

/// Every transition has its reason in what the forge replied, and none is missed. An
/// item counts as merged where the forge says so of its change or has just merged it;
/// as green where its pipeline succeeded; as published where its manifest declares a
/// version other than before the bump; and as failed where the forge fails it, its
/// pipeline did not succeed, or its change was closed.
pub proof fn transitions_have_their_reason(
    chain: Seq<Provider>,
    id: Seq<char>,
    item: WaveItemView,
    stage: StageView,
    reply: ReplyView,
    now: Seq<char>,
)
    requires
        stage !is Idle,
    ensures
        ({
            let s = cascade::responds(chain, id, item, stage, reply, now);
            let polls = stage is PollState || stage is MergeState;
            &&& goes_to(s, WaveItemState::Merged) <==> polls && reply == ReplyView::State(
                ChangeState::Merged,
            ) || stage is MergeChange && reply is Merged
            &&& goes_to(s, WaveItemState::CiGreen) <==> stage is PollPipeline && (
            reply matches ReplyView::Pipeline(ps) && ps.status is Success)
            &&& goes_to(s, WaveItemState::Failed) <==> reply is Failed && stage !is OpenAutoMerge
                || stage is PollPipeline && (reply matches ReplyView::Pipeline(ps) && (
            ps.status is Failed || ps.status is Canceled)) || stage is PollState && reply
                == ReplyView::State(ChangeState::Closed)
            &&& goes_to(s, WaveItemState::Published) <==> stage is Publish && (
            reply matches ReplyView::File(Some(blob)) && (provider::provider_for(
                chain,
                item.manifest_path,
            ) matches Some(p) && declares(p, blob.content).len() > 0 && declares(p, blob.content)
                != item.baseline_version))
            &&& goes_to(s, WaveItemState::CiRunning) <==> stage is OpenAutoMerge && reply
                == ReplyView::AutoMerge(true)
            &&& goes_to(s, WaveItemState::MrOpen) <==> stage is OpenAutoMerge && (reply
                == ReplyView::AutoMerge(false) || reply is Failed)
            &&& goes_to(s, WaveItemState::Skipped) ==> stage is OpenManifest
            &&& !goes_to(s, WaveItemState::Pending) && !goes_to(s, WaveItemState::Merging)
                && !goes_to(s, WaveItemState::Unspecified)
        }),
{
}

/// What a publish comes to: the item's version is the one that its manifest declares.
pub proof fn published_at_what_is_declared(
    chain: Seq<Provider>,
    id: Seq<char>,
    item: WaveItemView,
    p: Provider,
    blob: FileBlobView,
    now: Seq<char>,
)
    requires
        provider::provider_for(chain, item.manifest_path) == Some(p),
    ensures
        ({
            let s = cascade::responds(
                chain,
                id,
                item,
                StageView::Publish,
                ReplyView::File(Some(blob)),
                now,
            );
            let v = declares(p, blob.content);
            &&& v.len() > 0 && v != item.baseline_version ==> s.item == (WaveItemView {
                published_version: v,
                state: WaveItemState::Published.number(),
                updated_at: now,
                ..item
            })
            &&& v.len() == 0 || v == item.baseline_version ==> s.item == item && asked(s) is None
                && s.next == NextView::Settled(false)
        }),
{
}

/// What a poll leads to: an open change has its pipeline looked at, and one whose
/// pipeline has not come to an end stays as it is. What a merge leads to: a change
/// that is not merged yet is merged.
pub proof fn polling_and_merging_go_on(
    chain: Seq<Provider>,
    id: Seq<char>,
    item: WaveItemView,
    repo: RepoRefView,
    change: ChangeRefView,
    state: ChangeState,
    status: CiStatus,
    url: Seq<char>,
    now: Seq<char>,
)
    requires
        item.repo == Some(repo),
        item.change == Some(change),
    ensures
        ({
            let poll = cascade::begins(chain, id, item, ItemActionView::Poll, now);
            let merge = cascade::begins(chain, id, item, ItemActionView::Merge, now);
            &&& asked(poll) == Some(RequestView::ChangeState { repo, change }) && waiting(poll)
                is PollState
            &&& asked(merge) == Some(RequestView::ChangeState { repo, change }) && waiting(merge)
                is MergeState
        }),
        ({
            let s = cascade::responds(
                chain,
                id,
                item,
                StageView::PollState,
                ReplyView::State(state),
                now,
            );
            state != ChangeState::Merged && state != ChangeState::Closed ==> asked(s) == Some(
                RequestView::PipelineStatus { repo, change },
            ) && waiting(s) is PollPipeline && s.item == item
        }),
        ({
            let ps = crate::forge::PipelineStatusView { status, url };
            let s = cascade::responds(
                chain,
                id,
                item,
                StageView::PollPipeline,
                ReplyView::Pipeline(ps),
                now,
            );
            !(status is Success || status is Failed || status is Canceled) ==> s.item == item
                && s.next == NextView::Settled(false)
        }),
        ({
            let s = cascade::responds(
                chain,
                id,
                item,
                StageView::MergeState,
                ReplyView::State(state),
                now,
            );
            state != ChangeState::Merged ==> asked(s) == Some(RequestView::Merge { repo, change })
                && waiting(s) is MergeChange && s.item == item
        }),
{
}

/// How publish detection begins: a repo that publishes nothing is done once it is
/// merged; of any other one the manifest is read, from its default branch.
pub proof fn publishing_begins(
    chain: Seq<Provider>,
    id: Seq<char>,
    item: WaveItemView,
    repo: RepoRefView,
    now: Seq<char>,
)
    requires
        item.repo == Some(repo),
    ensures
        ({
            let s = cascade::begins(chain, id, item, ItemActionView::DetectPublish, now);
            &&& item.published_module.len() == 0 ==> goes_to(s, WaveItemState::Published) && s.item
                == (WaveItemView {
                state: WaveItemState::Published.number(),
                updated_at: now,
                ..item
            })
            &&& item.published_module.len() > 0 && provider::provider_for(
                chain,
                item.manifest_path,
            ) is Some ==> asked(s) == Some(
                RequestView::ReadFile { repo, path: item.manifest_path, at: Seq::empty() },
            ) && waiting(s) is Publish && s.item == item
        }),
{
}

/// What is a stop, and what is not: an item without a repo, without a provider for
/// its manifest, without the manifest, or without the change to look at cannot go on,
/// and says which of these it is.
pub proof fn stops_say_what_is_missing(
    chain: Seq<Provider>,
    id: Seq<char>,
    item: WaveItemView,
    targets: Seq<(Seq<char>, Seq<char>)>,
    b: Seq<char>,
    now: Seq<char>,
)
    ensures
        ({
            let readable = provider::provider_for(chain, item.manifest_path) is Some;
            let open = cascade::begins(chain, id, item, ItemActionView::Open(targets), now).next;
            let poll = cascade::begins(chain, id, item, ItemActionView::Poll, now).next;
            let merge = cascade::begins(chain, id, item, ItemActionView::Merge, now).next;
            let publish = cascade::begins(chain, id, item, ItemActionView::DetectPublish, now).next;
            let gone = cascade::responds(
                chain,
                id,
                item,
                StageView::OpenManifest { targets, default_branch: b },
                ReplyView::File(None),
                now,
            ).next;
            let no_repo = NextView::Stopped(RunErrorView::MissingRepo);
            let no_reader = NextView::Stopped(RunErrorView::NoProvider(item.manifest_path));
            &&& open == no_repo <==> item.repo is None
            &&& open == no_reader <==> item.repo is Some && !readable
            &&& poll == no_repo <==> item.repo is None
            &&& poll == NextView::Stopped(RunErrorView::NoChangeToPoll) <==> item.repo is Some
                && item.change is None
            &&& merge == no_repo <==> item.repo is None
            &&& merge == NextView::Stopped(RunErrorView::NoChangeToMerge) <==> item.repo is Some
                && item.change is None
            &&& item.published_module.len() > 0 ==> (publish == no_repo <==> item.repo is None)
            &&& item.published_module.len() > 0 ==> (publish == no_reader <==> item.repo is Some
                && !readable)
            &&& item.repo matches Some(r) ==> gone == NextView::Stopped(
                RunErrorView::ManifestNotFound { path: item.manifest_path, key: r.key() },
            )
        }),
        cascade::begins(chain, id, item, ItemActionView::Wait, now) == (ItemStepView {
            item,
            event: None,
            next: NextView::Settled(false),
        }),
        cascade::begins(chain, id, item, ItemActionView::Done, now) == (ItemStepView {
            item,
            event: None,
            next: NextView::Settled(false),
        }),
{
}

/// What every step keeps of an item: who it is and what it was planned for. Where it
/// makes no transition it keeps its state, its times and its version too; where it
/// makes one, the event says which, of which item, and when, and a failure's reason
/// is kept.
pub open spec fn keeps(
    id: Seq<char>,
    item: WaveItemView,
    step: ItemStepView,
    now: Seq<char>,
) -> bool {
    &&& step.item.repo == item.repo
    &&& step.item.published_module == item.published_module
    &&& step.item.manifest_path == item.manifest_path
    &&& step.item.tier == item.tier
    &&& step.item.upstream_modules == item.upstream_modules
    &&& step.item.branch == item.branch
    &&& asked(step) matches Some(request) ==> item.repo == Some(repo_of(request))
    &&& step.event is None ==> step.item == (WaveItemView {
        upstream_targets: step.item.upstream_targets,
        ..item
    }) && step.next != NextView::Settled(true)
    &&& step.event matches Some(e) ==> {
        &&& e.wave_id == id
        &&& e.item_key == (match item.repo {
            Some(r) => r.host + seq!['|'] + r.owner + seq!['/'] + r.name,
            None => Seq::empty(),
        })
        &&& e.from_state == item.state
        &&& e.to_state == step.item.state
        &&& e.at == now
        &&& step.item.updated_at == now
        &&& step.item.error == (if e.to_state == WaveItemState::Failed.number() {
            e.detail
        } else {
            item.error
        })
        &&& step.next == NextView::Settled(true)
    }
}

/// A step touches of an item only what is its own to touch, asks only the item's own
/// repo, and tells of just the transition that it makes.
pub proof fn steps_keep_the_item(
    chain: Seq<Provider>,
    id: Seq<char>,
    item: WaveItemView,
    action: ItemActionView,
    stage: StageView,
    reply: ReplyView,
    now: Seq<char>,
)
    requires
        stage !is Idle,
    ensures
        keeps(id, item, cascade::begins(chain, id, item, action, now), now),
        keeps(id, item, cascade::responds(chain, id, item, stage, reply, now), now),
{
}

/// The reason of a failure is what is told of it: the forge's own words, or what
/// became of the pipeline or the change.
pub proof fn failures_say_why(
    chain: Seq<Provider>,
    id: Seq<char>,
    item: WaveItemView,
    stage: StageView,
    reply: ReplyView,
    now: Seq<char>,
)
    requires
        stage !is Idle,
        goes_to(cascade::responds(chain, id, item, stage, reply, now), WaveItemState::Failed),
    ensures
        ({
            let error = cascade::responds(chain, id, item, stage, reply, now).item.error;
            &&& reply matches ReplyView::Failed(why) ==> error == why
            &&& reply is State ==> error == "change closed without merging"@
            &&& reply matches ReplyView::Pipeline(ps) ==> error == (if ps.status is Failed {
                "pipeline Failed"@
            } else {
                "pipeline Canceled"@
            })
        }),
{
}

// ─── the run ────────────────────────────────────────────────────────────

/// How a run goes over its items: a turn that asks stays at its item; one that comes
/// to an end with it goes on to the next one; behind the last one a pass that made a
/// transition is followed by another from the first item, and one that made none ends
/// the run.
pub proof fn turns_go_over_every_item(
    s: RunnerView,
    chain: Seq<Provider>,
    reply: Option<ReplyView>,
    now: Seq<char>,
)
    requires
        s.in_step(),
    ensures
        ({
            let turn = s.advanced(chain, reply, now);
            let behind = s.stage is Idle && s.idx == s.wave.items.len();
            &&& turn.progress is Ask ==> turn.runner.idx == s.idx && !behind && turn.runner.stage
                !is Idle && turn.runner.progressed == s.progressed
            &&& turn.progress is Continue && !behind ==> turn.runner.idx == s.idx + 1
                && turn.runner.stage is Idle && turn.runner.progressed == (s.progressed
                || turn.event is Some)
            &&& turn.progress is Continue && behind ==> s.progressed && turn.runner
                == RunnerView::start(s.wave)
            &&& turn.progress is Finished <==> behind && !s.progressed
            &&& turn.progress is Stopped ==> turn.runner.idx == 0 && turn.runner.stage is Idle
                && !turn.runner.progressed
        }),
{
    if s.stage !is Idle {
        if let Some(r) = reply {
            runner::responding_is_lawful(chain, s.wave.id, s.wave.items[s.idx], s.stage, r, now);
        }
    } else if s.idx < s.wave.items.len() {
        runner::beginning_is_lawful(chain, s.wave, s.wave.items[s.idx], now);
    }
}

/// A turn does to the item at hand what its action, or the reply it waits for, does,
/// and to the wave nothing more; only the end of a run settles the wave.
pub proof fn turns_keep_the_wave(
    s: RunnerView,
    chain: Seq<Provider>,
    reply: Option<ReplyView>,
    now: Seq<char>,
)
    requires
        s.in_step(),
    ensures
        ({
            let turn = s.advanced(chain, reply, now);
            let after = turn.runner.wave;
            &&& after.id == s.wave.id && after.root_module == s.wave.root_module && after.root_repo
                == s.wave.root_repo && after.target_version == s.wave.target_version && after.cycle
                == s.wave.cycle && after.force_bump_satisfied == s.wave.force_bump_satisfied
                && after.created_at == s.wave.created_at && after.items.len() == s.wave.items.len()
            &&& turn.progress !is Finished ==> after.state == s.wave.state && after.completed_at
                == s.wave.completed_at
            &&& turn.progress is Finished ==> after.items == s.wave.items
            &&& s.stage is Idle && s.idx < s.wave.items.len() ==> after.items[s.idx]
                == cascade::begins(
                chain,
                s.wave.id,
                s.wave.items[s.idx],
                runner::action_for(s.wave, s.wave.items[s.idx]),
                now,
            ).item
            &&& s.stage !is Idle && reply is Some ==> after.items[s.idx] == cascade::responds(
                chain,
                s.wave.id,
                s.wave.items[s.idx],
                s.stage,
                reply->0,
                now,
            ).item
            &&& s.stage !is Idle && reply is None ==> turn.progress is Stopped && after == s.wave
        }),
{
}

/// How a wave is settled: it is completed where every item has been published or
/// skipped, aborted where every item has come to an end and one has failed, and goes
/// on otherwise. The time it was done is noted once, and nothing else of it changes.
pub proof fn settling_looks_at_every_item(wave: WaveView, now: Seq<char>)
    ensures
        ({
            let after = runner::finalized(wave, now);
            let done = forall|i: int|
                0 <= i < wave.items.len() ==> ({
                    let s = WaveItemState::of_number((#[trigger] wave.items[i]).state);
                    s is Published || s is Skipped || s is Failed
                });
            let failed = exists|i: int|
                0 <= i < wave.items.len() && WaveItemState::of_number(
                    (#[trigger] wave.items[i]).state,
                ) is Failed;
            &&& after.state == (if !done {
                WaveState::Merging
            } else if failed {
                WaveState::Aborted
            } else {
                WaveState::Completed
            }).number()
            &&& after.completed_at == (if done && wave.completed_at.len() == 0 {
                now
            } else {
                wave.completed_at
            })
            &&& after == (WaveView {
                state: after.state,
                completed_at: after.completed_at,
                ..wave
            })
        }),
{
    let done = forall|i: int|
        0 <= i < wave.items.len() ==> ({
            let s = WaveItemState::of_number((#[trigger] wave.items[i]).state);
            s is Published || s is Skipped || s is Failed
        });
    let all = forall|i: int| 0 <= i < wave.items.len() ==> (#[trigger] wave.items[i]).ended();
    if done {
        assert forall|i: int| 0 <= i < wave.items.len() implies (
        #[trigger] wave.items[i]).ended() by {}
    }
    if all {
        assert forall|i: int| 0 <= i < wave.items.len() implies ({
            let s = WaveItemState::of_number((#[trigger] wave.items[i]).state);
            s is Published || s is Skipped || s is Failed
        }) by {
            assert(wave.items[i].ended());
        }
    }
    if exists|i: int|
        0 <= i < wave.items.len() && (#[trigger] wave.items[i]).stands() is Failed {
        let i = choose|i: int|
            0 <= i < wave.items.len() && (#[trigger] wave.items[i]).stands() is Failed;
        assert(WaveItemState::of_number(wave.items[i].state) is Failed);
    }
    if exists|i: int|
        0 <= i < wave.items.len() && WaveItemState::of_number(
            (#[trigger] wave.items[i]).state,
        ) is Failed {
        let i = choose|i: int|
            0 <= i < wave.items.len() && WaveItemState::of_number(
                (#[trigger] wave.items[i]).state,
            ) is Failed;
        assert(wave.items[i].stands() is Failed);
    }
}

/// What a wave is made of: it is open and says of the bump what the plan says; it has
/// one item for each of the plan's, in order, pending, with what the plan says of the
/// repo, on the wave's own branch; and nothing has happened to any of them yet.
pub proof fn wave_is_made_of_its_plan(
    plan: WavePlanView,
    force: bool,
    now: Seq<char>,
    id: Seq<char>,
    i: int,
)
    ensures
        ({
            let w = runner::materialized(plan, force, now, id);
            &&& w.id == id
            &&& w.root_module == plan.root_module
            &&& w.root_repo == plan.root_repo
            &&& w.target_version == plan.target_version
            &&& w.cycle == plan.cycle
            &&& w.force_bump_satisfied == force
            &&& w.created_at == now
            &&& w.completed_at.len() == 0
            &&& w.state == WaveState::Open.number()
            &&& w.items.len() == plan.items.len()
            &&& 0 <= i < plan.items.len() ==> {
                let item = w.items[i];
                let from = plan.items[i];
                &&& item.repo == Some(from.repo)
                &&& item.published_module == (match from.published {
                    Some(m) => m,
                    None => Seq::empty(),
                })
                &&& item.manifest_path == from.manifest_path
                &&& item.tier == from.tier
                &&& item.upstream_modules == from.upstream_modules
                &&& item.state == WaveItemState::Pending.number()
                &&& item.branch == "wave/"@ + id
                &&& item.change is None
                &&& item.upstream_targets.len() == 0
                &&& item.baseline_version.len() == 0
                &&& item.published_version.len() == 0
                &&& item.error.len() == 0
                &&& item.updated_at == now
            }
        }),
{
}

/// What a summary says: each target in order, the module, ` to ` and the version,
/// with a comma between two of them.
pub proof fn summary_names_every_target(
    a: Seq<(Seq<char>, Seq<char>)>,
    m: Seq<char>,
    v: Seq<char>,
)
    ensures
        runner::summary_of(a.push((m, v))) == (if a.len() == 0 {
            m + " to "@ + v
        } else {
            runner::summary_of(a) + ", "@ + m + " to "@ + v
        }),
        runner::summary_of(seq![]) == Seq::<char>::empty(),
{
    let l = a.push((m, v));
    assert(l.drop_last() =~= a);
    if a.len() == 0 {
        assert(runner::summary_of(l) =~= m + " to "@ + v);
    }
}

/// What an id is made of: its letters and digits are those of the text, in order, and
/// whatever else stands between two of them is a dash; it neither begins nor ends
/// with one.
pub proof fn slugs_keep_letters_and_digits(s: Seq<char>)
    ensures
        exists|from: int, to: int| #[trigger]
            is_slug_of(s, from, to) && runner::slugged(s).len() == to - from && forall|i: int|
                0 <= i < to - from ==> (#[trigger] runner::slugged(s)[i]) == (
                if is_letter_or_digit(s[from + i]) {
                    s[from + i]
                } else {
                    '-'
                }),
{
    let all = s.map_values(|c: char| runner::id_char(c));
    let a = leading_dashes(all);
    let front = runner::no_leading_dash(all);
    let b = trailing_dashes(front);
    let from = a;
    let to = a + b;
    assert(runner::slugged(s) == all.subrange(from, to)) by {
        assert(front == all.subrange(a, all.len() as int));
        assert(runner::no_trailing_dash(front) == front.subrange(0, b));
        assert(front.subrange(0, b) =~= all.subrange(a, a + b));
    }
    assert forall|i: int| 0 <= i < from || to <= i < s.len() implies !is_letter_or_digit(
        #[trigger] s[i],
    ) by {
        if i < from {
            assert(all[i] == '-');
        } else {
            assert(front[i - a] == '-');
            assert(front[i - a] == all[i]);
        }
    }
    assert(from < to ==> is_letter_or_digit(s[from]) && is_letter_or_digit(s[to - 1])) by {
        if from < to {
            assert(all[from] != '-');
            assert(front[b - 1] != '-');
            assert(front[b - 1] == all[to - 1]);
        }
    }
    assert(is_slug_of(s, from, to));
}

/// Is the character an ASCII letter or digit?
pub open spec fn is_letter_or_digit(c: char) -> bool {
    'a' <= c <= 'z' || 'A' <= c <= 'Z' || '0' <= c <= '9'
}

/// Is everything outside of the given stretch of `s` neither a letter nor a digit, and
/// does the stretch begin and end with one?
pub open spec fn is_slug_of(s: Seq<char>, from: int, to: int) -> bool {
    &&& 0 <= from <= to <= s.len()
    &&& forall|i: int|
        0 <= i < from || to <= i < s.len() ==> !is_letter_or_digit(#[trigger] s[i])
    &&& from < to ==> is_letter_or_digit(s[from]) && is_letter_or_digit(s[to - 1])
}

proof fn leading_dashes(s: Seq<char>) -> (n: int)
    ensures
        0 <= n <= s.len(),
        runner::no_leading_dash(s) == s.subrange(n, s.len() as int),
        forall|i: int| 0 <= i < n ==> #[trigger] s[i] == '-',
        n < s.len() ==> s[n] != '-',
    decreases s.len(),
{
    if s.len() > 0 && s[0] == '-' {
        let t = s.drop_first();
        let n = leading_dashes(t);
        assert(t.subrange(n, t.len() as int) =~= s.subrange(n + 1, s.len() as int));
        assert forall|i: int| 0 <= i < n + 1 implies #[trigger] s[i] == '-' by {
            if i > 0 {
                assert(t[i - 1] == s[i]);
            }
        }
        n + 1
    } else {
        assert(s.subrange(0, s.len() as int) =~= s);
        0
    }
}

proof fn trailing_dashes(s: Seq<char>) -> (n: int)
    ensures
        0 <= n <= s.len(),
        runner::no_trailing_dash(s) == s.subrange(0, n),
        forall|i: int| n <= i < s.len() ==> #[trigger] s[i] == '-',
        n > 0 ==> s[n - 1] != '-',
        n > 0 || s.len() == 0 || s[0] == '-',
    decreases s.len(),
{
    if s.len() > 0 && s.last() == '-' {
        let t = s.drop_last();
        let n = trailing_dashes(t);
        assert(t.subrange(0, n) =~= s.subrange(0, n));
        assert forall|i: int| n <= i < s.len() implies #[trigger] s[i] == '-' by {
            if i < t.len() {
                assert(t[i] == s[i]);
            }
        }
        n
    } else {
        assert(s.subrange(0, s.len() as int) =~= s);
        s.len() as int
    }
}

/// An id says what its wave is for, and tells two waves for the same bump apart by
/// when they were made.
pub proof fn ids_tell_waves_apart(
    module: Seq<char>,
    target: Seq<char>,
    a: Seq<char>,
    b: Seq<char>,
)
    ensures
        runner::wave_id_text(module, target, a) == "wave-"@ + runner::slugged(module) + "-v"@
            + runner::slugged(target) + "-"@ + a,
        runner::wave_id_text(module, target, a) == runner::wave_id_text(module, target, b)
            ==> a == b,
{
    let head = "wave-"@ + runner::slugged(module) + "-v"@ + runner::slugged(target) + "-"@;
    let x = head + a;
    let y = head + b;
    if runner::wave_id_text(module, target, a) == runner::wave_id_text(module, target, b) {
        assert(x.len() == y.len());
        assert(x.subrange(head.len() as int, x.len() as int) =~= a);
        assert(y.subrange(head.len() as int, y.len() as int) =~= b);
    }
}

} // verus!
