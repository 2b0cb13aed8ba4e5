//! The cascade state machine: what an item asks of its forge, and what each
//! reply does to it. No forge call is made here; every function is a decision
//! on plain values.
use vstd::prelude::*;
use vstd::string::*;

use crate::forge::{
    ChangeRef, ChangeRefView, ChangeState, CiStatus, FileBlob, FileBlobView, OpenedChange,
    OpenedChangeView, PipelineStatus, PipelineStatusView, RepoRef, RepoRefView,
};
use crate::pb::{
    self, pb_repo_key, to_forge_change, to_forge_repo, to_pb_change, WaveEventView, WaveItemState,
    WaveItemView,
};
use crate::provider::{self, GraphProvider, Provider, ProviderChain};
use crate::runner::{self, summarize, ItemAction, ItemActionView};
use crate::targets::Targets;

verus! {

// ─── requests and replies ───────────────────────────────────────────────

/// What to ask of a forge.
#[derive(Debug, PartialEq, Eq)]
pub enum ForgeRequest {
    /// The name of the default branch.
    DefaultBranch { repo: RepoRef },
    /// A file on the branch `at`; on the default branch where that is empty.
    ReadFile { repo: RepoRef, path: String, at: String },
    /// A branch, made from another one unless it is there.
    CreateBranch { repo: RepoRef, branch: String, from: String },
    /// A new version of a file on a branch.
    CommitFile {
        repo: RepoRef,
        branch: String,
        path: String,
        content: String,
        blob_sha: String,
        message: String,
    },
    /// A change that merges a branch into another one.
    OpenChange { repo: RepoRef, branch: String, base: String, title: String, body: String },
    /// That a change merges itself once its pipeline is green.
    EnableAutoMerge { repo: RepoRef, change: ChangeRef },
    /// Where a change stands.
    ChangeState { repo: RepoRef, change: ChangeRef },
    /// Where a change's pipeline stands.
    PipelineStatus { repo: RepoRef, change: ChangeRef },
    /// To merge a change.
    Merge { repo: RepoRef, change: ChangeRef },
}

/// What a [`ForgeRequest`] says.
pub enum RequestView {
    DefaultBranch { repo: RepoRefView },
    ReadFile { repo: RepoRefView, path: Seq<char>, at: Seq<char> },
    CreateBranch { repo: RepoRefView, branch: Seq<char>, from: Seq<char> },
    CommitFile {
        repo: RepoRefView,
        branch: Seq<char>,
        path: Seq<char>,
        content: Seq<char>,
        blob_sha: Seq<char>,
        message: Seq<char>,
    },
    OpenChange {
        repo: RepoRefView,
        branch: Seq<char>,
        base: Seq<char>,
        title: Seq<char>,
        body: Seq<char>,
    },
    EnableAutoMerge { repo: RepoRefView, change: ChangeRefView },
    ChangeState { repo: RepoRefView, change: ChangeRefView },
    PipelineStatus { repo: RepoRefView, change: ChangeRefView },
    Merge { repo: RepoRefView, change: ChangeRefView },
}

impl DeepView for ForgeRequest {
    type V = RequestView;

    open spec fn deep_view(&self) -> RequestView {
        match self {
            ForgeRequest::DefaultBranch { repo } => RequestView::DefaultBranch {
                repo: repo.deep_view(),
            },
            ForgeRequest::ReadFile { repo, path, at } => RequestView::ReadFile {
                repo: repo.deep_view(),
                path: path@,
                at: at@,
            },
            ForgeRequest::CreateBranch { repo, branch, from } => RequestView::CreateBranch {
                repo: repo.deep_view(),
                branch: branch@,
                from: from@,
            },
            ForgeRequest::CommitFile {
                repo,
                branch,
                path,
                content,
                blob_sha,
                message,
            } => RequestView::CommitFile {
                repo: repo.deep_view(),
                branch: branch@,
                path: path@,
                content: content@,
                blob_sha: blob_sha@,
                message: message@,
            },
            ForgeRequest::OpenChange { repo, branch, base, title, body } => RequestView::OpenChange {
                repo: repo.deep_view(),
                branch: branch@,
                base: base@,
                title: title@,
                body: body@,
            },
            ForgeRequest::EnableAutoMerge { repo, change } => RequestView::EnableAutoMerge {
                repo: repo.deep_view(),
                change: change.deep_view(),
            },
            ForgeRequest::ChangeState { repo, change } => RequestView::ChangeState {
                repo: repo.deep_view(),
                change: change.deep_view(),
            },
            ForgeRequest::PipelineStatus { repo, change } => RequestView::PipelineStatus {
                repo: repo.deep_view(),
                change: change.deep_view(),
            },
            ForgeRequest::Merge { repo, change } => RequestView::Merge {
                repo: repo.deep_view(),
                change: change.deep_view(),
            },
        }
    }
}

/// What a forge answers.
#[derive(Debug, PartialEq, Eq)]
pub enum ForgeReply {
    /// The name of a branch.
    Branch(String),
    /// A file, if it is there.
    File(Option<FileBlob>),
    /// It is done, with nothing to say of it.
    Done,
    /// The change that was opened.
    Opened(OpenedChange),
    /// Whether auto-merge is on.
    AutoMerge(bool),
    /// Where a change stands.
    State(ChangeState),
    /// Where a change's pipeline stands.
    Pipeline(PipelineStatus),
    /// The merge commit.
    Merged(String),
    /// The request failed.
    Failed(String),
}

/// What a [`ForgeReply`] says.
pub enum ReplyView {
    Branch(Seq<char>),
    File(Option<FileBlobView>),
    Done,
    Opened(OpenedChangeView),
    AutoMerge(bool),
    State(ChangeState),
    Pipeline(PipelineStatusView),
    Merged(Seq<char>),
    Failed(Seq<char>),
}

impl DeepView for ForgeReply {
    type V = ReplyView;

    open spec fn deep_view(&self) -> ReplyView {
        match self {
            ForgeReply::Branch(b) => ReplyView::Branch(b@),
            ForgeReply::File(f) => ReplyView::File(f.deep_view()),
            ForgeReply::Done => ReplyView::Done,
            ForgeReply::Opened(c) => ReplyView::Opened(c.deep_view()),
            ForgeReply::AutoMerge(b) => ReplyView::AutoMerge(*b),
            ForgeReply::State(s) => ReplyView::State(*s),
            ForgeReply::Pipeline(p) => ReplyView::Pipeline(p.deep_view()),
            ForgeReply::Merged(sha) => ReplyView::Merged(sha@),
            ForgeReply::Failed(why) => ReplyView::Failed(why@),
        }
    }
}

/// Why a cascade had to stop.
#[derive(Debug, PartialEq, Eq)]
pub enum RunError {
    MissingRepo,
    NoProvider(String),
    ManifestNotFound { path: String, key: String },
    NoChangeToPoll,
    NoChangeToMerge,
    /// A reply to something that was not asked.
    UnexpectedReply,
}

/// What a [`RunError`] says.
pub enum RunErrorView {
    MissingRepo,
    NoProvider(Seq<char>),
    ManifestNotFound { path: Seq<char>, key: Seq<char> },
    NoChangeToPoll,
    NoChangeToMerge,
    UnexpectedReply,
}

impl DeepView for RunError {
    type V = RunErrorView;

    open spec fn deep_view(&self) -> RunErrorView {
        match self {
            RunError::MissingRepo => RunErrorView::MissingRepo,
            RunError::NoProvider(p) => RunErrorView::NoProvider(p@),
            RunError::ManifestNotFound { path, key } => RunErrorView::ManifestNotFound {
                path: path@,
                key: key@,
            },
            RunError::NoChangeToPoll => RunErrorView::NoChangeToPoll,
            RunError::NoChangeToMerge => RunErrorView::NoChangeToMerge,
            RunError::UnexpectedReply => RunErrorView::UnexpectedReply,
        }
    }
}

impl RunErrorView {
    /// The error in words.
    pub open spec fn text(self) -> Seq<char> {
        match self {
            RunErrorView::MissingRepo => "wave item missing repo"@,
            RunErrorView::NoProvider(p) => "no provider for manifest "@ + p,
            RunErrorView::ManifestNotFound { path, key } => path + " not found on "@ + key,
            RunErrorView::NoChangeToPoll => "polling an item with no change"@,
            RunErrorView::NoChangeToMerge => "merging an item with no change"@,
            RunErrorView::UnexpectedReply => "unexpected forge reply"@,
        }
    }
}

impl RunError {
    /// The error in words.
    pub fn to_text(&self) -> (r: String)
        ensures
            r@ == self.deep_view().text(),
    {
        match self {
            RunError::MissingRepo => "wave item missing repo".to_owned(),
            RunError::NoProvider(p) => {
                let mut out = "no provider for manifest ".to_owned();
                out.append(p.as_str());
                out
            },
            RunError::ManifestNotFound { path, key } => {
                let mut out = path.clone();
                out.append(" not found on ");
                out.append(key.as_str());
                out
            },
            RunError::NoChangeToPoll => "polling an item with no change".to_owned(),
            RunError::NoChangeToMerge => "merging an item with no change".to_owned(),
            RunError::UnexpectedReply => "unexpected forge reply".to_owned(),
        }
    }
}

// ─── stages ─────────────────────────────────────────────────────────────

/// A bump that is being opened.
#[derive(Debug, PartialEq, Eq)]
pub struct Bump {
    pub targets: Targets,
    pub default_branch: String,
    /// The rewritten manifest.
    pub text: String,
    /// The manifest that it replaces.
    pub blob_sha: String,
    /// The repo's own version before the bump.
    pub baseline: String,
}

/// What a [`Bump`] says.
pub struct BumpView {
    pub targets: Seq<(Seq<char>, Seq<char>)>,
    pub default_branch: Seq<char>,
    pub text: Seq<char>,
    pub blob_sha: Seq<char>,
    pub baseline: Seq<char>,
}

impl DeepView for Bump {
    type V = BumpView;

    open spec fn deep_view(&self) -> BumpView {
        BumpView {
            targets: self.targets.deep_view(),
            default_branch: self.default_branch@,
            text: self.text@,
            blob_sha: self.blob_sha@,
            baseline: self.baseline@,
        }
    }
}

impl Clone for Bump {
    fn clone(&self) -> (r: Bump)
        ensures
            r.deep_view() == self.deep_view(),
    {
        Bump {
            targets: self.targets.clone(),
            default_branch: self.default_branch.clone(),
            text: self.text.clone(),
            blob_sha: self.blob_sha.clone(),
            baseline: self.baseline.clone(),
        }
    }
}

/// What reply an item waits for.
#[derive(Debug, PartialEq, Eq)]
pub enum Stage {
    /// None.
    Idle,
    /// Opening: the default branch.
    OpenBranch(Targets),
    /// Opening: the manifest on the default branch.
    OpenManifest { targets: Targets, default_branch: String },
    /// Opening: the wave's branch.
    OpenCreate(Bump),
    /// Opening: the commit on it.
    OpenCommit(Bump),
    /// Opening: the change.
    OpenChange(Bump),
    /// Opening: auto-merge on the change.
    OpenAutoMerge { bump: Bump, change: ChangeRef },
    /// Polling: where the change stands.
    PollState,
    /// Polling: where its pipeline stands.
    PollPipeline,
    /// Merging: where the change stands.
    MergeState,
    /// Merging: the merge.
    MergeChange,
    /// Publish detection: the manifest on the default branch.
    Publish,
}

/// What a [`Stage`] says.
pub enum StageView {
    Idle,
    OpenBranch(Seq<(Seq<char>, Seq<char>)>),
    OpenManifest { targets: Seq<(Seq<char>, Seq<char>)>, default_branch: Seq<char> },
    OpenCreate(BumpView),
    OpenCommit(BumpView),
    OpenChange(BumpView),
    OpenAutoMerge { bump: BumpView, change: ChangeRefView },
    PollState,
    PollPipeline,
    MergeState,
    MergeChange,
    Publish,
}

impl DeepView for Stage {
    type V = StageView;

    open spec fn deep_view(&self) -> StageView {
        match self {
            Stage::Idle => StageView::Idle,
            Stage::OpenBranch(t) => StageView::OpenBranch(t.deep_view()),
            Stage::OpenManifest { targets, default_branch } => StageView::OpenManifest {
                targets: targets.deep_view(),
                default_branch: default_branch@,
            },
            Stage::OpenCreate(b) => StageView::OpenCreate(b.deep_view()),
            Stage::OpenCommit(b) => StageView::OpenCommit(b.deep_view()),
            Stage::OpenChange(b) => StageView::OpenChange(b.deep_view()),
            Stage::OpenAutoMerge { bump, change } => StageView::OpenAutoMerge {
                bump: bump.deep_view(),
                change: change.deep_view(),
            },
            Stage::PollState => StageView::PollState,
            Stage::PollPipeline => StageView::PollPipeline,
            Stage::MergeState => StageView::MergeState,
            Stage::MergeChange => StageView::MergeChange,
            Stage::Publish => StageView::Publish,
        }
    }
}

/// How an item goes on.
#[derive(Debug, PartialEq, Eq)]
pub enum Next {
    /// With a request, whose reply the stage waits for.
    Ask(Stage, ForgeRequest),
    /// Not in this pass; whether it made progress.
    Settled(bool),
    /// It cannot.
    Stopped(RunError),
}

/// What a [`Next`] says.
pub enum NextView {
    Ask(StageView, RequestView),
    Settled(bool),
    Stopped(RunErrorView),
}

impl DeepView for Next {
    type V = NextView;

    open spec fn deep_view(&self) -> NextView {
        match self {
            Next::Ask(s, r) => NextView::Ask(s.deep_view(), r.deep_view()),
            Next::Settled(p) => NextView::Settled(*p),
            Next::Stopped(e) => NextView::Stopped(e.deep_view()),
        }
    }
}

/// What one decision does: the item after it, the event of its transition, if
/// there was one, and how the item goes on.
#[derive(Debug, PartialEq, Eq)]
pub struct ItemStep {
    pub item: pb::WaveItem,
    pub event: Option<pb::WaveEvent>,
    pub next: Next,
}

/// What an [`ItemStep`] says.
pub struct ItemStepView {
    pub item: WaveItemView,
    pub event: Option<WaveEventView>,
    pub next: NextView,
}

impl DeepView for ItemStep {
    type V = ItemStepView;

    open spec fn deep_view(&self) -> ItemStepView {
        ItemStepView {
            item: self.item.deep_view(),
            event: self.event.deep_view(),
            next: self.next.deep_view(),
        }
    }
}

/// The item as it is, with a request.
pub open spec fn asks(item: WaveItemView, stage: StageView, request: RequestView) -> ItemStepView {
    ItemStepView { item, event: None, next: NextView::Ask(stage, request) }
}

/// The item as it is, without progress.
pub open spec fn rests(item: WaveItemView) -> ItemStepView {
    ItemStepView { item, event: None, next: NextView::Settled(false) }
}

/// The item as it is, at its wits' end.
pub open spec fn stops(item: WaveItemView, error: RunErrorView) -> ItemStepView {
    ItemStepView { item, event: None, next: NextView::Stopped(error) }
}

/// The key that events name an item by.
pub open spec fn item_key(item: WaveItemView) -> Seq<char> {
    match item.repo {
        Some(r) => r.key(),
        None => seq![],
    }
}

/// The item after the transition to `to`: a failure keeps its reason.
pub open spec fn moved(
    item: WaveItemView,
    to: WaveItemState,
    detail: Seq<char>,
    now: Seq<char>,
) -> WaveItemView {
    WaveItemView {
        state: to.number(),
        updated_at: now,
        error: if to is Failed {
            detail
        } else {
            item.error
        },
        ..item
    }
}

/// The transition of an item to `to`, with its event.
pub open spec fn moves(
    wave_id: Seq<char>,
    item: WaveItemView,
    to: WaveItemState,
    detail: Seq<char>,
    now: Seq<char>,
) -> ItemStepView {
    ItemStepView {
        item: moved(item, to, detail, now),
        event: Some(
            WaveEventView {
                wave_id,
                item_key: item_key(item),
                from_state: item.state,
                to_state: to.number(),
                detail,
                at: now,
            },
        ),
        next: NextView::Settled(true),
    }
}

/// The manifest with each of the first `n` targets written, and whether that
/// changed it: an entry already at its target is nothing new.
pub open spec fn bumped_upto(
    p: Provider,
    text: Seq<char>,
    l: Seq<(Seq<char>, Seq<char>)>,
    n: nat,
) -> (Seq<char>, bool)
    decreases n,
{
    if n == 0 {
        (text, false)
    } else {
        let (t, changed) = bumped_upto(p, text, l, (n - 1) as nat);
        let (m, v) = l[n - 1];
        let next = p.bumped(t, m, v);
        (next, changed || next != t)
    }
}

/// A manifest that is at every target already is left as it is: there is nothing
/// to bump in it.
pub proof fn at_target_is_nothing_to_bump(
    p: Provider,
    text: Seq<char>,
    l: Seq<(Seq<char>, Seq<char>)>,
    n: nat,
)
    requires
        n <= l.len(),
    ensures
        (forall|i: int| 0 <= i < n ==> p.bumped(text, (#[trigger] l[i]).0, l[i].1) == text)
            ==> bumped_upto(p, text, l, n) == (text, false),
        !bumped_upto(p, text, l, n).1 ==> bumped_upto(p, text, l, n).0 == text,
    decreases n,
{
    if n > 0 {
        at_target_is_nothing_to_bump(p, text, l, (n - 1) as nat);
        assert(l[n - 1] == (l[n - 1].0, l[n - 1].1));
    }
}

/// Are `ts` the texts that writing the bumps one after the other goes through: from
/// `text` on, each the one before it with the next bump written?
pub open spec fn are_steps(
    p: Provider,
    text: Seq<char>,
    bumps: Seq<(Seq<char>, Seq<char>)>,
    ts: Seq<Seq<char>>,
) -> bool {
    &&& ts.len() == bumps.len() + 1
    &&& ts[0] == text
    &&& forall|i: int|
        #![trigger bumps[i]]
        0 <= i < bumps.len() ==> ts[i + 1] == p.bumped(ts[i], bumps[i].0, bumps[i].1)
}

/// Writing bumps one after the other always goes through some texts.
pub proof fn steps_exist(p: Provider, text: Seq<char>, bumps: Seq<(Seq<char>, Seq<char>)>) -> (ts:
    Seq<Seq<char>>)
    ensures
        are_steps(p, text, bumps, ts),
    decreases bumps.len(),
{
    if bumps.len() == 0 {
        seq![text]
    } else {
        let init = bumps.drop_last();
        let us = steps_exist(p, text, init);
        let ts = us.push(p.bumped(us.last(), bumps.last().0, bumps.last().1));
        assert forall|i: int|
            #![trigger bumps[i]]
            0 <= i < bumps.len() implies ts[i + 1] == p.bumped(ts[i], bumps[i].0, bumps[i].1) by {
            if i < init.len() {
                assert(init[i] == bumps[i]);
                assert(ts[i] == us[i] && ts[i + 1] == us[i + 1]);
            }
        }
        ts
    }
}

proof fn steps_upto(
    p: Provider,
    text: Seq<char>,
    l: Seq<(Seq<char>, Seq<char>)>,
    ts: Seq<Seq<char>>,
    n: nat,
)
    requires
        are_steps(p, text, l, ts),
        n <= l.len(),
    ensures
        bumped_upto(p, text, l, n).0 == ts[n as int],
        bumped_upto(p, text, l, n).1 <==> exists|i: int|
            0 <= i < n && ts[i + 1] != #[trigger] ts[i],
    decreases n,
{
    if n > 0 {
        let k: int = n - 1;
        steps_upto(p, text, l, ts, k as nat);
        assert(l[k] == (l[k].0, l[k].1));
        assert(ts[k + 1] == p.bumped(ts[k], l[k].0, l[k].1));
        if bumped_upto(p, text, l, n).1 {
            if bumped_upto(p, text, l, k as nat).1 {
                let i = choose|i: int| 0 <= i < k && ts[i + 1] != #[trigger] ts[i];
                assert(ts[i + 1] != ts[i]);
            } else {
                assert(ts[k + 1] != ts[k]);
            }
        }
        if exists|i: int| 0 <= i < n && ts[i + 1] != #[trigger] ts[i] {
            let i = choose|i: int| 0 <= i < n && ts[i + 1] != #[trigger] ts[i];
            if i < k {
                assert(ts[i + 1] != ts[i]);
            }
        }
    }
}

/// A manifest is bumped in turn: it comes out with every target written, each into
/// what the one before it left, and it counts as changed just where one of them
/// changed it.
pub proof fn targets_are_written_in_turn(
    p: Provider,
    text: Seq<char>,
    l: Seq<(Seq<char>, Seq<char>)>,
    ts: Seq<Seq<char>>,
)
    requires
        are_steps(p, text, l, ts),
    ensures
        bumped_upto(p, text, l, l.len()).0 == ts.last(),
        bumped_upto(p, text, l, l.len()).1 <==> exists|i: int|
            0 <= i < l.len() && ts[i + 1] != #[trigger] ts[i],
{
    steps_upto(p, text, l, ts, l.len());
}

/// Does writing a bump again change nothing, and do bumps of two modules not get in
/// each other's way?
pub open spec fn keeps_apart(p: Provider) -> bool {
    &&& forall|t: Seq<char>, m: Seq<char>, v: Seq<char>|
        p.bumped(#[trigger] p.bumped(t, m, v), m, v) == p.bumped(t, m, v)
    &&& forall|t: Seq<char>, m: Seq<char>, v: Seq<char>, n: Seq<char>, w: Seq<char>|
        m != n ==> #[trigger] p.bumped(p.bumped(t, m, v), n, w) == p.bumped(
            p.bumped(t, n, w),
            m,
            v,
        )
}

/// Do no two of the bumps go to the same module?
pub open spec fn modules_differ(bumps: Seq<(Seq<char>, Seq<char>)>) -> bool {
    forall|i: int, j: int|
        #![trigger bumps[i], bumps[j]]
        0 <= i < j < bumps.len() ==> bumps[i].0 != bumps[j].0
}

/// Where bumps of different modules keep apart, none is lost: writing any of them
/// again into what came out changes nothing.
pub proof fn steps_lose_nothing(
    p: Provider,
    text: Seq<char>,
    bumps: Seq<(Seq<char>, Seq<char>)>,
    ts: Seq<Seq<char>>,
    i: int,
    n: int,
)
    requires
        keeps_apart(p),
        modules_differ(bumps),
        are_steps(p, text, bumps, ts),
        0 <= i < n <= bumps.len(),
    ensures
        p.bumped(ts[n], bumps[i].0, bumps[i].1) == ts[n],
    decreases n,
{
    let k = n - 1;
    let (m, v) = bumps[k];
    assert(bumps[k] == (bumps[k].0, bumps[k].1));
    assert(ts[k + 1] == p.bumped(ts[k], m, v));
    if i < k {
        steps_lose_nothing(p, text, bumps, ts, i, k);
        let (a, b) = bumps[i];
        assert(bumps[i].0 != bumps[k].0);
        assert(p.bumped(p.bumped(ts[k], m, v), a, b) == p.bumped(p.bumped(ts[k], a, b), m, v));
    }
}

/// Nothing that a manifest was to be bumped to is lost on the way: where bumps of
/// different modules keep apart, the bumped manifest is at every target.
pub proof fn written_targets_stay_written(
    p: Provider,
    text: Seq<char>,
    l: Seq<(Seq<char>, Seq<char>)>,
    i: int,
)
    requires
        keeps_apart(p),
        modules_differ(l),
        0 <= i < l.len(),
    ensures
        ({
            let out = bumped_upto(p, text, l, l.len()).0;
            p.bumped(out, l[i].0, l[i].1) == out
        }),
{
    let ts = steps_exist(p, text, l);
    targets_are_written_in_turn(p, text, l, ts);
    steps_lose_nothing(p, text, l, ts, i, l.len() as int);
}

/// The version that a manifest declares; empty where it declares none.
pub open spec fn version_or_empty(p: Provider, text: Seq<char>) -> Seq<char> {
    match p.version_in(text) {
        Some(v) => v,
        None => seq![],
    }
}

/// What an action begins with.
pub open spec fn begins(
    chain: Seq<Provider>,
    wave_id: Seq<char>,
    item: WaveItemView,
    action: ItemActionView,
    now: Seq<char>,
) -> ItemStepView {
    match action {
        ItemActionView::Wait | ItemActionView::Done => rests(item),
        ItemActionView::Open(targets) => match (
            item.repo,
            provider::provider_for(chain, item.manifest_path),
        ) {
            (None, _) => stops(item, RunErrorView::MissingRepo),
            (Some(_), None) => stops(item, RunErrorView::NoProvider(item.manifest_path)),
            (Some(repo), Some(_)) => asks(
                item,
                StageView::OpenBranch(targets),
                RequestView::DefaultBranch { repo },
            ),
        },
        ItemActionView::Poll => match (item.repo, item.change) {
            (None, _) => stops(item, RunErrorView::MissingRepo),
            (Some(_), None) => stops(item, RunErrorView::NoChangeToPoll),
            (Some(repo), Some(change)) => asks(
                item,
                StageView::PollState,
                RequestView::ChangeState { repo, change },
            ),
        },
        ItemActionView::Merge => match (item.repo, item.change) {
            (None, _) => stops(item, RunErrorView::MissingRepo),
            (Some(_), None) => stops(item, RunErrorView::NoChangeToMerge),
            (Some(repo), Some(change)) => asks(
                item,
                StageView::MergeState,
                RequestView::ChangeState { repo, change },
            ),
        },
        ItemActionView::DetectPublish => if item.published_module.len() == 0 {
            moves(wave_id, item, WaveItemState::Published, "merged (publishes nothing)"@, now)
        } else {
            match (item.repo, provider::provider_for(chain, item.manifest_path)) {
                (None, _) => stops(item, RunErrorView::MissingRepo),
                (Some(_), None) => stops(item, RunErrorView::NoProvider(item.manifest_path)),
                (Some(repo), Some(_)) => asks(
                    item,
                    StageView::Publish,
                    RequestView::ReadFile { repo, path: item.manifest_path, at: seq![] },
                ),
            }
        },
    }
}

/// What the manifest does to an item that is being opened: where no target
/// changes it there is nothing to open, and the item is skipped with the version its
/// repo publishes; else the rewritten manifest goes on a branch.
pub open spec fn on_manifest(
    p: Provider,
    wave_id: Seq<char>,
    item: WaveItemView,
    repo: RepoRefView,
    targets: Seq<(Seq<char>, Seq<char>)>,
    default_branch: Seq<char>,
    blob: FileBlobView,
    now: Seq<char>,
) -> ItemStepView {
    let (text, changed) = bumped_upto(p, blob.content, targets, targets.len());
    let version = version_or_empty(p, blob.content);
    let item = WaveItemView { upstream_targets: targets, ..item };
    if changed {
        asks(
            item,
            StageView::OpenCreate(
                BumpView {
                    targets,
                    default_branch,
                    text,
                    blob_sha: blob.blob_sha,
                    baseline: version,
                },
            ),
            RequestView::CreateBranch { repo, branch: item.branch, from: default_branch },
        )
    } else {
        moves(
            wave_id,
            WaveItemView { published_version: version, ..item },
            WaveItemState::Skipped,
            "constraint already satisfied"@,
            now,
        )
    }
}

/// `Bump <summary>`.
pub open spec fn bump_title(targets: Seq<(Seq<char>, Seq<char>)>) -> Seq<char> {
    "Bump "@ + runner::summary_of(targets)
}

/// The description of a wave's change.
pub open spec fn bump_body(wave_id: Seq<char>, targets: Seq<(Seq<char>, Seq<char>)>) -> Seq<char> {
    "Wave `"@ + wave_id + "`\n\nBumps "@ + runner::summary_of(targets) + ".\n"@
}

/// What a pipeline's state does to an item that is being polled.
pub open spec fn on_pipeline(
    wave_id: Seq<char>,
    item: WaveItemView,
    ps: PipelineStatusView,
    now: Seq<char>,
) -> ItemStepView {
    match ps.status {
        CiStatus::Success => moves(wave_id, item, WaveItemState::CiGreen, ps.url, now),
        CiStatus::Failed => moves(wave_id, item, WaveItemState::Failed, "pipeline Failed"@, now),
        CiStatus::Canceled => moves(
            wave_id,
            item,
            WaveItemState::Failed,
            "pipeline Canceled"@,
            now,
        ),
        _ => rests(item),
    }
}

/// What the manifest after the merge does to an item: a version other than that
/// before the merge is its publish.
pub open spec fn on_published_manifest(
    p: Provider,
    wave_id: Seq<char>,
    item: WaveItemView,
    content: Seq<char>,
    now: Seq<char>,
) -> ItemStepView {
    let current = version_or_empty(p, content);
    if current.len() > 0 && current != item.baseline_version {
        moves(
            wave_id,
            WaveItemView { published_version: current, ..item },
            WaveItemState::Published,
            "published "@ + current,
            now,
        )
    } else {
        rests(item)
    }
}

/// What a reply does to the item that waits for it.
pub open spec fn responds(
    chain: Seq<Provider>,
    wave_id: Seq<char>,
    item: WaveItemView,
    stage: StageView,
    reply: ReplyView,
    now: Seq<char>,
) -> ItemStepView {
    match (stage, reply) {
        // Auto-merge is a convenience: without it the cascade merges itself.
        (
            StageView::OpenAutoMerge { bump, change },
            ReplyView::AutoMerge(_) | ReplyView::Failed(_),
        ) => moves(
            wave_id,
            WaveItemView { baseline_version: bump.baseline, change: Some(change), ..item },
            if reply == ReplyView::AutoMerge(true) {
                WaveItemState::CiRunning
            } else {
                WaveItemState::MrOpen
            },
            change.url,
            now,
        ),
        (_, ReplyView::Failed(why)) => moves(wave_id, item, WaveItemState::Failed, why, now),
        (StageView::MergeChange, ReplyView::Merged(sha)) => moves(
            wave_id,
            item,
            WaveItemState::Merged,
            sha,
            now,
        ),
        (StageView::PollPipeline, ReplyView::Pipeline(ps)) => on_pipeline(wave_id, item, ps, now),
        (StageView::PollState | StageView::MergeState, ReplyView::State(ChangeState::Merged)) => moves(
            wave_id,
            item,
            WaveItemState::Merged,
            "merged"@,
            now,
        ),
        (StageView::PollState, ReplyView::State(ChangeState::Closed)) => moves(
            wave_id,
            item,
            WaveItemState::Failed,
            "change closed without merging"@,
            now,
        ),
        (StageView::Publish, ReplyView::File(None)) => rests(item),
        (StageView::Publish, ReplyView::File(Some(blob))) => match provider::provider_for(
            chain,
            item.manifest_path,
        ) {
            Some(p) => on_published_manifest(p, wave_id, item, blob.content, now),
            None => stops(item, RunErrorView::NoProvider(item.manifest_path)),
        },
        _ => match item.repo {
            None => stops(item, RunErrorView::MissingRepo),
            Some(repo) => responds_on(chain, wave_id, item, repo, stage, reply, now),
        },
    }
}

/// What a reply does to an item that goes on with its repo.
pub open spec fn responds_on(
    chain: Seq<Provider>,
    wave_id: Seq<char>,
    item: WaveItemView,
    repo: RepoRefView,
    stage: StageView,
    reply: ReplyView,
    now: Seq<char>,
) -> ItemStepView {
    match (stage, reply) {
        (StageView::OpenBranch(targets), ReplyView::Branch(default_branch)) => asks(
            item,
            StageView::OpenManifest { targets, default_branch },
            RequestView::ReadFile { repo, path: item.manifest_path, at: seq![] },
        ),
        (StageView::OpenManifest { .. }, ReplyView::File(None)) => stops(
            item,
            RunErrorView::ManifestNotFound { path: item.manifest_path, key: repo.key() },
        ),
        (
            StageView::OpenManifest { targets, default_branch },
            ReplyView::File(Some(blob)),
        ) => match provider::provider_for(chain, item.manifest_path) {
            Some(p) => on_manifest(p, wave_id, item, repo, targets, default_branch, blob, now),
            None => stops(item, RunErrorView::NoProvider(item.manifest_path)),
        },
        (StageView::OpenCreate(bump), ReplyView::Done) => asks(
            item,
            StageView::OpenCommit(bump),
            RequestView::CommitFile {
                repo,
                branch: item.branch,
                path: item.manifest_path,
                content: bump.text,
                blob_sha: bump.blob_sha,
                message: bump_title(bump.targets),
            },
        ),
        (StageView::OpenCommit(bump), ReplyView::Done) => asks(
            item,
            StageView::OpenChange(bump),
            RequestView::OpenChange {
                repo,
                branch: item.branch,
                base: bump.default_branch,
                title: bump_title(bump.targets),
                body: bump_body(wave_id, bump.targets),
            },
        ),
        (StageView::OpenChange(bump), ReplyView::Opened(opened)) => asks(
            item,
            StageView::OpenAutoMerge { bump, change: opened.change },
            RequestView::EnableAutoMerge { repo, change: opened.change },
        ),
        (StageView::PollState, ReplyView::State(_)) => match item.change {
            Some(change) => asks(
                item,
                StageView::PollPipeline,
                RequestView::PipelineStatus { repo, change },
            ),
            None => stops(item, RunErrorView::NoChangeToPoll),
        },
        (StageView::MergeState, ReplyView::State(_)) => match item.change {
            Some(change) => asks(
                item,
                StageView::MergeChange,
                RequestView::Merge { repo, change },
            ),
            None => stops(item, RunErrorView::NoChangeToMerge),
        },
        _ => stops(item, RunErrorView::UnexpectedReply),
    }
}

// ─── taking the decisions ───────────────────────────────────────────────

fn ask(item: pb::WaveItem, stage: Stage, request: ForgeRequest) -> (r: ItemStep)
    ensures
        r.deep_view() == asks(item.deep_view(), stage.deep_view(), request.deep_view()),
{
    ItemStep { item, event: None, next: Next::Ask(stage, request) }
}

fn rest(item: pb::WaveItem) -> (r: ItemStep)
    ensures
        r.deep_view() == rests(item.deep_view()),
{
    ItemStep { item, event: None, next: Next::Settled(false) }
}

fn stop(item: pb::WaveItem, error: RunError) -> (r: ItemStep)
    ensures
        r.deep_view() == stops(item.deep_view(), error.deep_view()),
{
    ItemStep { item, event: None, next: Next::Stopped(error) }
}

fn no_provider(item: pb::WaveItem) -> (r: ItemStep)
    ensures
        r.deep_view() == stops(
            item.deep_view(),
            RunErrorView::NoProvider(item.deep_view().manifest_path),
        ),
{
    let path = item.manifest_path.clone();
    stop(item, RunError::NoProvider(path))
}

/// Apply a state transition + make its event.
fn transition(wave_id: &str, item: pb::WaveItem, to: WaveItemState, detail: &str, now: &str) -> (r:
    ItemStep)
    ensures
        r.deep_view() == moves(wave_id@, item.deep_view(), to, detail@, now@),
{
    let key = match &item.repo {
        Some(r) => pb_repo_key(r),
        None => String::new(),
    };
    assert(key@ =~= item_key(item.deep_view()));
    let event = pb::WaveEvent {
        wave_id: wave_id.to_owned(),
        item_key: key,
        from_state: item.state,
        to_state: to.to_number(),
        detail: detail.to_owned(),
        at: now.to_owned(),
    };
    let mut item = item;
    match to {
        WaveItemState::Failed => {
            item.error = detail.to_owned();
        },
        _ => {},
    }
    item.state = to.to_number();
    item.updated_at = now.to_owned();
    ItemStep { item, event: Some(event), next: Next::Settled(true) }
}

/// Apply every resolved upstream bump to the manifest text.
pub fn apply_targets(p: &Provider, text: &str, t: &Targets) -> (r: (String, bool))
    ensures
        (r.0@, r.1) == bumped_upto(*p, text@, t.deep_view(), t.deep_view().len()),
{
    let mut out = text.to_owned();
    let mut any_changed = false;
    let mut i: usize = 0;
    while i < t.len()
        invariant
            i <= t.deep_view().len(),
            (out@, any_changed) == bumped_upto(*p, text@, t.deep_view(), i as nat),
        decreases t.deep_view().len() - i,
    {
        let (module, target) = t.at(i);
        let (next, _) = p.bump(out.as_str(), module.as_str(), target.as_str());
        if next != out {
            any_changed = true;
        }
        out = next;
        i = i + 1;
    }
    (out, any_changed)
}

/// The version that a manifest declares; empty where it declares none.
fn declared_version(p: &Provider, text: &str) -> (r: String)
    ensures
        r@ == version_or_empty(*p, text@),
{
    match p.published_version(text) {
        Some(v) => v,
        None => {
            let none = String::new();
            assert(none@ =~= seq![]);
            none
        },
    }
}

/// `Bump <summary>`.
fn title_of(t: &Targets) -> (r: String)
    ensures
        r@ == bump_title(t.deep_view()),
{
    let mut out = "Bump ".to_owned();
    let s = summarize(t);
    out.append(s.as_str());
    out
}

/// The description of a wave's change.
fn body_of(wave_id: &str, t: &Targets) -> (r: String)
    ensures
        r@ == bump_body(wave_id@, t.deep_view()),
{
    let mut out = "Wave `".to_owned();
    out.append(wave_id);
    out.append("`\n\nBumps ");
    let s = summarize(t);
    out.append(s.as_str());
    out.append(".\n");
    out
}

/// Begins the action of an item.
pub fn begin(
    chain: &ProviderChain,
    wave_id: &str,
    item: pb::WaveItem,
    action: ItemAction,
    now: &str,
) -> (r: ItemStep)
    ensures
        r.deep_view() == begins(
            chain@,
            wave_id@,
            item.deep_view(),
            action.deep_view(),
            now@,
        ),
{
    match action {
        ItemAction::Wait => rest(item),
        ItemAction::Done => rest(item),
        ItemAction::Open(targets) => begin_open(chain, item, targets),
        ItemAction::Poll => begin_poll(item),
        ItemAction::Merge => begin_merge(item),
        ItemAction::DetectPublish => begin_publish(chain, wave_id, item, now),
    }
}

fn begin_open(chain: &ProviderChain, item: pb::WaveItem, targets: Targets) -> (r: ItemStep)
    ensures
        r.deep_view() == begins(
            chain@,
            seq![],
            item.deep_view(),
            ItemActionView::Open(targets.deep_view()),
            seq![],
        ),
{
    let repo = match &item.repo {
        Some(r) => to_forge_repo(r),
        None => {
            return stop(item, RunError::MissingRepo);
        },
    };
    match chain.for_manifest(item.manifest_path.as_str()) {
        Some(_) => ask(item, Stage::OpenBranch(targets), ForgeRequest::DefaultBranch { repo }),
        None => no_provider(item),
    }
}

fn begin_poll(item: pb::WaveItem) -> (r: ItemStep)
    ensures
        r.deep_view() == begins(
            seq![],
            seq![],
            item.deep_view(),
            ItemActionView::Poll,
            seq![],
        ),
{
    let repo = match &item.repo {
        Some(r) => to_forge_repo(r),
        None => {
            return stop(item, RunError::MissingRepo);
        },
    };
    let change = match &item.change {
        Some(c) => to_forge_change(c),
        None => {
            return stop(item, RunError::NoChangeToPoll);
        },
    };
    ask(item, Stage::PollState, ForgeRequest::ChangeState { repo, change })
}

fn begin_merge(item: pb::WaveItem) -> (r: ItemStep)
    ensures
        r.deep_view() == begins(
            seq![],
            seq![],
            item.deep_view(),
            ItemActionView::Merge,
            seq![],
        ),
{
    let repo = match &item.repo {
        Some(r) => to_forge_repo(r),
        None => {
            return stop(item, RunError::MissingRepo);
        },
    };
    let change = match &item.change {
        Some(c) => to_forge_change(c),
        None => {
            return stop(item, RunError::NoChangeToMerge);
        },
    };
    // Auto-merge could have fired between poll and now.
    ask(item, Stage::MergeState, ForgeRequest::ChangeState { repo, change })
}

fn begin_publish(chain: &ProviderChain, wave_id: &str, item: pb::WaveItem, now: &str) -> (r:
    ItemStep)
    ensures
        r.deep_view() == begins(
            chain@,
            wave_id@,
            item.deep_view(),
            ItemActionView::DetectPublish,
            now@,
        ),
{
    // An app publishes nothing — merging is terminal success.
    if item.published_module.is_empty() {
        return transition(
            wave_id,
            item,
            WaveItemState::Published,
            "merged (publishes nothing)",
            now,
        );
    }
    let repo = match &item.repo {
        Some(r) => to_forge_repo(r),
        None => {
            return stop(item, RunError::MissingRepo);
        },
    };
    match chain.for_manifest(item.manifest_path.as_str()) {
        Some(_) => {
            let path = item.manifest_path.clone();
            let at = String::new();
            assert(at@ =~= seq![]);
            ask(item, Stage::Publish, ForgeRequest::ReadFile { repo, path, at })
        },
        None => no_provider(item),
    }
}

/// What the manifest does to an item that is being opened.
pub fn open_manifest(
    p: &Provider,
    wave_id: &str,
    item: pb::WaveItem,
    repo: RepoRef,
    targets: &Targets,
    default_branch: &String,
    blob: &FileBlob,
    now: &str,
) -> (r: ItemStep)
    ensures
        r.deep_view() == on_manifest(
            *p,
            wave_id@,
            item.deep_view(),
            repo.deep_view(),
            targets.deep_view(),
            default_branch@,
            blob.deep_view(),
            now@,
        ),
{
    let (text, any_changed) = apply_targets(p, blob.content.as_str(), targets);
    let version = declared_version(p, blob.content.as_str());
    let mut item = item;
    // Record what this item resolved its upstreams to, for status/tracing.
    item.upstream_targets = targets.clone();
    if !any_changed {
        // Already satisfied — no change to open. Surface this repo's current
        // published version so downstream items resolve against it.
        item.published_version = version;
        return transition(
            wave_id,
            item,
            WaveItemState::Skipped,
            "constraint already satisfied",
            now,
        );
    }
    // Branch → commit → open change → enable auto-merge (each idempotent). The
    // publish-detection baseline is this repo's own version before merge.
    let branch = item.branch.clone();
    ask(
        item,
        Stage::OpenCreate(
            Bump {
                targets: targets.clone(),
                default_branch: default_branch.clone(),
                text,
                blob_sha: blob.blob_sha.clone(),
                baseline: version,
            },
        ),
        ForgeRequest::CreateBranch { repo, branch, from: default_branch.clone() },
    )
}

/// What a pipeline's state does to an item that is being polled.
pub fn poll_pipeline(wave_id: &str, item: pb::WaveItem, ps: &PipelineStatus, now: &str) -> (r:
    ItemStep)
    ensures
        r.deep_view() == on_pipeline(wave_id@, item.deep_view(), ps.deep_view(), now@),
{
    match ps.status {
        CiStatus::Success => transition(
            wave_id,
            item,
            WaveItemState::CiGreen,
            ps.url.as_str(),
            now,
        ),
        CiStatus::Failed => transition(
            wave_id,
            item,
            WaveItemState::Failed,
            "pipeline Failed",
            now,
        ),
        CiStatus::Canceled => transition(
            wave_id,
            item,
            WaveItemState::Failed,
            "pipeline Canceled",
            now,
        ),
        // Pending / running / none → no progress this tick.
        _ => rest(item),
    }
}

/// What the manifest after the merge does to an item.
pub fn detect_publish(p: &Provider, wave_id: &str, item: pb::WaveItem, content: &str, now: &str) -> (r:
    ItemStep)
    ensures
        r.deep_view() == on_published_manifest(*p, wave_id@, item.deep_view(), content@, now@),
{
    let current = declared_version(p, content);
    if !current.is_empty() && current != item.baseline_version {
        let mut detail = "published ".to_owned();
        detail.append(current.as_str());
        let mut item = item;
        item.published_version = current;
        transition(wave_id, item, WaveItemState::Published, detail.as_str(), now)
    } else {
        // Release pipeline hasn't bumped the published version yet — re-check
        // on the next reconcile tick.
        rest(item)
    }
}

/// Takes a forge's reply to the item that waits for it.
pub fn respond(
    chain: &ProviderChain,
    wave_id: &str,
    item: pb::WaveItem,
    stage: &Stage,
    reply: ForgeReply,
    now: &str,
) -> (r: ItemStep)
    ensures
        r.deep_view() == responds(
            chain@,
            wave_id@,
            item.deep_view(),
            stage.deep_view(),
            reply.deep_view(),
            now@,
        ),
{
    if let Stage::OpenAutoMerge { bump, change } = stage {
        match &reply {
            ForgeReply::AutoMerge(_) | ForgeReply::Failed(_) => {
                // Auto-merge enabled → the forge merges on green (CI_RUNNING).
                // Otherwise we'll merge it ourselves after CI goes green
                // (MR_OPEN).
                let enabled = match &reply {
                    ForgeReply::AutoMerge(b) => *b,
                    _ => false,
                };
                let mut item = item;
                item.baseline_version = bump.baseline.clone();
                item.change = Some(to_pb_change(change));
                let to = if enabled {
                    WaveItemState::CiRunning
                } else {
                    WaveItemState::MrOpen
                };
                return transition(wave_id, item, to, change.url.as_str(), now);
            },
            _ => {},
        }
    }
    if let ForgeReply::Failed(why) = &reply {
        return transition(wave_id, item, WaveItemState::Failed, why.as_str(), now);
    }
    match (stage, &reply) {
        (Stage::MergeChange, ForgeReply::Merged(sha)) => {
            return transition(wave_id, item, WaveItemState::Merged, sha.as_str(), now);
        },
        (Stage::PollPipeline, ForgeReply::Pipeline(ps)) => {
            return poll_pipeline(wave_id, item, ps, now);
        },
        (Stage::PollState, ForgeReply::State(ChangeState::Merged)) => {
            // Auto-merge may have already merged it.
            return transition(wave_id, item, WaveItemState::Merged, "merged", now);
        },
        (Stage::MergeState, ForgeReply::State(ChangeState::Merged)) => {
            return transition(wave_id, item, WaveItemState::Merged, "merged", now);
        },
        (Stage::PollState, ForgeReply::State(ChangeState::Closed)) => {
            return transition(
                wave_id,
                item,
                WaveItemState::Failed,
                "change closed without merging",
                now,
            );
        },
        (Stage::Publish, ForgeReply::File(None)) => {
            return rest(item);
        },
        (Stage::Publish, ForgeReply::File(Some(blob))) => {
            return match chain.for_manifest(item.manifest_path.as_str()) {
                Some(p) => detect_publish(p, wave_id, item, blob.content.as_str(), now),
                None => no_provider(item),
            };
        },
        _ => {},
    }
    let repo = match &item.repo {
        Some(r) => to_forge_repo(r),
        None => {
            return stop(item, RunError::MissingRepo);
        },
    };
    respond_on(chain, wave_id, item, repo, stage, reply, now)
}

fn respond_on(
    chain: &ProviderChain,
    wave_id: &str,
    item: pb::WaveItem,
    repo: RepoRef,
    stage: &Stage,
    reply: ForgeReply,
    now: &str,
) -> (r: ItemStep)
    ensures
        r.deep_view() == responds_on(
            chain@,
            wave_id@,
            item.deep_view(),
            repo.deep_view(),
            stage.deep_view(),
            reply.deep_view(),
            now@,
        ),
{
    match (stage, reply) {
        (Stage::OpenBranch(targets), ForgeReply::Branch(default_branch)) => {
            let path = item.manifest_path.clone();
            let at = String::new();
            assert(at@ =~= seq![]);
            ask(
                item,
                Stage::OpenManifest { targets: targets.clone(), default_branch },
                ForgeRequest::ReadFile { repo, path, at },
            )
        },
        (Stage::OpenManifest { .. }, ForgeReply::File(None)) => {
            let path = item.manifest_path.clone();
            let key = crate::graph::repo_key(&repo);
            stop(item, RunError::ManifestNotFound { path, key })
        },
        (Stage::OpenManifest { targets, default_branch }, ForgeReply::File(Some(blob))) => {
            match chain.for_manifest(item.manifest_path.as_str()) {
                Some(p) => open_manifest(
                    p,
                    wave_id,
                    item,
                    repo,
                    targets,
                    default_branch,
                    &blob,
                    now,
                ),
                None => no_provider(item),
            }
        },
        (Stage::OpenCreate(bump), ForgeReply::Done) => {
            let request = ForgeRequest::CommitFile {
                repo,
                branch: item.branch.clone(),
                path: item.manifest_path.clone(),
                content: bump.text.clone(),
                blob_sha: bump.blob_sha.clone(),
                message: title_of(&bump.targets),
            };
            ask(item, Stage::OpenCommit(bump.clone()), request)
        },
        (Stage::OpenCommit(bump), ForgeReply::Done) => {
            let request = ForgeRequest::OpenChange {
                repo,
                branch: item.branch.clone(),
                base: bump.default_branch.clone(),
                title: title_of(&bump.targets),
                body: body_of(wave_id, &bump.targets),
            };
            ask(item, Stage::OpenChange(bump.clone()), request)
        },
        (Stage::OpenChange(bump), ForgeReply::Opened(opened)) => {
            let change = opened.change;
            let request = ForgeRequest::EnableAutoMerge { repo, change: change.clone() };
            ask(item, Stage::OpenAutoMerge { bump: bump.clone(), change }, request)
        },
        (Stage::PollState, ForgeReply::State(_)) => {
            let change = match &item.change {
                Some(c) => to_forge_change(c),
                None => {
                    return stop(item, RunError::NoChangeToPoll);
                },
            };
            ask(item, Stage::PollPipeline, ForgeRequest::PipelineStatus { repo, change })
        },
        (Stage::MergeState, ForgeReply::State(_)) => {
            let change = match &item.change {
                Some(c) => to_forge_change(c),
                None => {
                    return stop(item, RunError::NoChangeToMerge);
                },
            };
            ask(item, Stage::MergeChange, ForgeRequest::Merge { repo, change })
        },
        _ => stop(item, RunError::UnexpectedReply),
    }
}

/// What is said where a wave has to stop: what is missing, and where there is one, the
/// manifest and the repo that it is missing for.
pub proof fn stops_are_told_in_words(path: Seq<char>, key: Seq<char>)
    ensures
        RunErrorView::MissingRepo.text() == "wave item missing repo"@,
        RunErrorView::NoProvider(path).text() == "no provider for manifest "@ + path,
        (RunErrorView::ManifestNotFound { path, key }).text() == path + " not found on "@ + key,
        RunErrorView::NoChangeToPoll.text() == "polling an item with no change"@,
        RunErrorView::NoChangeToMerge.text() == "merging an item with no change"@,
        RunErrorView::UnexpectedReply.text() == "unexpected forge reply"@,
{
}

} // verus!
