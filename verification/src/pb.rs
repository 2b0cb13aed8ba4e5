//! The stored shape of a wave: the `wave.v1` messages, as plain values. Wave owns
//! its store schema: its `RepoRef`/`ChangeRef` mirror the forge's but are wave's
//! own; [`to_pb_repo`]/[`to_forge_repo`]/[`to_pb_change`]/[`to_forge_change`]
//! convert at the forge edge.
use vstd::prelude::*;
use vstd::string::*;

use crate::forge::{self, ChangeRefView, RepoRefView};
use crate::targets::Targets;
use crate::text::copy_texts;

verus! {

/// Where one repo stands in the cascade.
#[derive(Debug, Clone, Copy, PartialEq, Eq, Structural)]
pub enum WaveItemState {
    Unspecified,
    Pending,
    MrOpen,
    CiRunning,
    CiGreen,
    Merging,
    Merged,
    Published,
    Skipped,
    Failed,
}

impl WaveItemState {
    /// The state's wire number.
    pub open spec fn number(self) -> i32 {
        match self {
            WaveItemState::Unspecified => 0,
            WaveItemState::Pending => 1,
            WaveItemState::MrOpen => 2,
            WaveItemState::CiRunning => 3,
            WaveItemState::CiGreen => 4,
            WaveItemState::Merging => 5,
            WaveItemState::Merged => 6,
            WaveItemState::Published => 7,
            WaveItemState::Skipped => 8,
            WaveItemState::Failed => 9,
        }
    }

    /// The state with the wire number `n`; a number that is none counts as
    /// unspecified.
    pub open spec fn of_number(n: i32) -> WaveItemState {
        if n == 1 {
            WaveItemState::Pending
        } else if n == 2 {
            WaveItemState::MrOpen
        } else if n == 3 {
            WaveItemState::CiRunning
        } else if n == 4 {
            WaveItemState::CiGreen
        } else if n == 5 {
            WaveItemState::Merging
        } else if n == 6 {
            WaveItemState::Merged
        } else if n == 7 {
            WaveItemState::Published
        } else if n == 8 {
            WaveItemState::Skipped
        } else if n == 9 {
            WaveItemState::Failed
        } else {
            WaveItemState::Unspecified
        }
    }

    /// The state's wire number.
    pub fn to_number(self) -> (r: i32)
        ensures
            r == self.number(),
    {
        match self {
            WaveItemState::Unspecified => 0,
            WaveItemState::Pending => 1,
            WaveItemState::MrOpen => 2,
            WaveItemState::CiRunning => 3,
            WaveItemState::CiGreen => 4,
            WaveItemState::Merging => 5,
            WaveItemState::Merged => 6,
            WaveItemState::Published => 7,
            WaveItemState::Skipped => 8,
            WaveItemState::Failed => 9,
        }
    }

    /// The state with the wire number `n`; a number that is none counts as
    /// unspecified.
    pub fn from_number(n: i32) -> (r: WaveItemState)
        ensures
            r == Self::of_number(n),
    {
        match n {
            1 => WaveItemState::Pending,
            2 => WaveItemState::MrOpen,
            3 => WaveItemState::CiRunning,
            4 => WaveItemState::CiGreen,
            5 => WaveItemState::Merging,
            6 => WaveItemState::Merged,
            7 => WaveItemState::Published,
            8 => WaveItemState::Skipped,
            9 => WaveItemState::Failed,
            _ => WaveItemState::Unspecified,
        }
    }
}

/// Where a wave stands.
#[derive(Debug, Clone, Copy, PartialEq, Eq, Structural)]
pub enum WaveState {
    Unspecified,
    Proposed,
    Open,
    Merging,
    Completed,
    Aborted,
}

impl WaveState {
    /// The state's wire number.
    pub open spec fn number(self) -> i32 {
        match self {
            WaveState::Unspecified => 0,
            WaveState::Proposed => 1,
            WaveState::Open => 2,
            WaveState::Merging => 3,
            WaveState::Completed => 4,
            WaveState::Aborted => 5,
        }
    }

    /// The state with the wire number `n`; a number that is none counts as
    /// unspecified.
    pub open spec fn of_number(n: i32) -> WaveState {
        if n == 1 {
            WaveState::Proposed
        } else if n == 2 {
            WaveState::Open
        } else if n == 3 {
            WaveState::Merging
        } else if n == 4 {
            WaveState::Completed
        } else if n == 5 {
            WaveState::Aborted
        } else {
            WaveState::Unspecified
        }
    }

    /// The state's wire number.
    pub fn to_number(self) -> (r: i32)
        ensures
            r == self.number(),
    {
        match self {
            WaveState::Unspecified => 0,
            WaveState::Proposed => 1,
            WaveState::Open => 2,
            WaveState::Merging => 3,
            WaveState::Completed => 4,
            WaveState::Aborted => 5,
        }
    }

    /// The state with the wire number `n`; a number that is none counts as
    /// unspecified.
    pub fn from_number(n: i32) -> (r: WaveState)
        ensures
            r == Self::of_number(n),
    {
        match n {
            1 => WaveState::Proposed,
            2 => WaveState::Open,
            3 => WaveState::Merging,
            4 => WaveState::Completed,
            5 => WaveState::Aborted,
            _ => WaveState::Unspecified,
        }
    }
}

/// A stored repo.
#[derive(Debug, PartialEq, Eq)]
pub struct RepoRef {
    pub forge: i32,
    pub host: String,
    pub owner: String,
    pub name: String,
}

impl DeepView for RepoRef {
    type V = RepoRefView;

    open spec fn deep_view(&self) -> RepoRefView {
        RepoRefView {
            forge: self.forge,
            host: self.host@,
            owner: self.owner@,
            name: self.name@,
        }
    }
}

impl Clone for RepoRef {
    fn clone(&self) -> (r: RepoRef)
        ensures
            r.deep_view() == self.deep_view(),
    {
        RepoRef {
            forge: self.forge,
            host: self.host.clone(),
            owner: self.owner.clone(),
            name: self.name.clone(),
        }
    }
}

impl Default for RepoRef {
    fn default() -> (r: RepoRef)
        ensures
            r.deep_view() == (RepoRefView {
                forge: 0,
                host: seq![],
                owner: seq![],
                name: seq![],
            }),
    {
        let r = RepoRef {
            forge: 0,
            host: String::new(),
            owner: String::new(),
            name: String::new(),
        };
        assert(r.deep_view().host =~= seq![]);
        assert(r.deep_view().owner =~= seq![]);
        assert(r.deep_view().name =~= seq![]);
        r
    }
}

/// A stored change.
#[derive(Debug, PartialEq, Eq)]
pub struct ChangeRef {
    pub number: u64,
    pub url: String,
    pub branch: String,
}

impl DeepView for ChangeRef {
    type V = ChangeRefView;

    open spec fn deep_view(&self) -> ChangeRefView {
        ChangeRefView {
            number: self.number,
            url: self.url@,
            branch: self.branch@,
        }
    }
}

impl Clone for ChangeRef {
    fn clone(&self) -> (r: ChangeRef)
        ensures
            r.deep_view() == self.deep_view(),
    {
        ChangeRef {
            number: self.number,
            url: self.url.clone(),
            branch: self.branch.clone(),
        }
    }
}

impl Default for ChangeRef {
    fn default() -> (r: ChangeRef)
        ensures
            r.deep_view() == (ChangeRefView {
                number: 0,
                url: seq![],
                branch: seq![],
            }),
    {
        let r = ChangeRef {
            number: 0,
            url: String::new(),
            branch: String::new(),
        };
        assert(r.deep_view().url =~= seq![]);
        assert(r.deep_view().branch =~= seq![]);
        r
    }
}

/// One repo of a wave.
#[derive(Debug, PartialEq, Eq)]
pub struct WaveItem {
    pub repo: Option<RepoRef>,
    /// The module this repo publishes; empty where it publishes nothing.
    pub published_module: String,
    pub manifest_path: String,
    pub tier: u32,
    pub upstream_modules: Vec<String>,
    /// The [`WaveItemState`]'s wire number.
    pub state: i32,
    pub branch: String,
    pub change: Option<ChangeRef>,
    /// What the upstream modules resolved to when the item was opened.
    pub upstream_targets: Targets,
    /// The repo's own version before the merge.
    pub baseline_version: String,
    /// The version the repo published in the wave.
    pub published_version: String,
    pub error: String,
    pub updated_at: String,
}

/// What a [`WaveItem`] says.
pub struct WaveItemView {
    pub repo: Option<RepoRefView>,
    pub published_module: Seq<char>,
    pub manifest_path: Seq<char>,
    pub tier: u32,
    pub upstream_modules: Seq<Seq<char>>,
    pub state: i32,
    pub branch: Seq<char>,
    pub change: Option<ChangeRefView>,
    pub upstream_targets: Seq<(Seq<char>, Seq<char>)>,
    pub baseline_version: Seq<char>,
    pub published_version: Seq<char>,
    pub error: Seq<char>,
    pub updated_at: Seq<char>,
}

impl DeepView for WaveItem {
    type V = WaveItemView;

    open spec fn deep_view(&self) -> WaveItemView {
        WaveItemView {
            repo: self.repo.deep_view(),
            published_module: self.published_module@,
            manifest_path: self.manifest_path@,
            tier: self.tier,
            upstream_modules: self.upstream_modules.deep_view(),
            state: self.state,
            branch: self.branch@,
            change: self.change.deep_view(),
            upstream_targets: self.upstream_targets.deep_view(),
            baseline_version: self.baseline_version@,
            published_version: self.published_version@,
            error: self.error@,
            updated_at: self.updated_at@,
        }
    }
}

impl Clone for WaveItem {
    fn clone(&self) -> (r: WaveItem)
        ensures
            r.deep_view() == self.deep_view(),
    {
        WaveItem {
            repo: match &self.repo {
                Some(x) => Some(x.clone()),
                None => None,
            },
            published_module: self.published_module.clone(),
            manifest_path: self.manifest_path.clone(),
            tier: self.tier,
            upstream_modules: copy_texts(&self.upstream_modules),
            state: self.state,
            branch: self.branch.clone(),
            change: match &self.change {
                Some(x) => Some(x.clone()),
                None => None,
            },
            upstream_targets: self.upstream_targets.clone(),
            baseline_version: self.baseline_version.clone(),
            published_version: self.published_version.clone(),
            error: self.error.clone(),
            updated_at: self.updated_at.clone(),
        }
    }
}

impl WaveItemView {
    /// The empty value.
    pub open spec fn empty() -> WaveItemView {
        WaveItemView {
            repo: None,
            published_module: seq![],
            manifest_path: seq![],
            tier: 0,
            upstream_modules: seq![],
            state: 0,
            branch: seq![],
            change: None,
            upstream_targets: seq![],
            baseline_version: seq![],
            published_version: seq![],
            error: seq![],
            updated_at: seq![],
        }
    }
}

impl Default for WaveItem {
    fn default() -> (r: WaveItem)
        ensures
            r.deep_view() == WaveItemView::empty(),
    {
        let r = WaveItem {
            repo: None,
            published_module: String::new(),
            manifest_path: String::new(),
            tier: 0,
            upstream_modules: Vec::new(),
            state: 0,
            branch: String::new(),
            change: None,
            upstream_targets: Targets::new(),
            baseline_version: String::new(),
            published_version: String::new(),
            error: String::new(),
            updated_at: String::new(),
        };
        assert(r.deep_view().published_module =~= seq![]);
        assert(r.deep_view().manifest_path =~= seq![]);
        assert(r.deep_view().upstream_modules =~= seq![]);
        assert(r.deep_view().branch =~= seq![]);
        assert(r.deep_view().upstream_targets =~= seq![]);
        assert(r.deep_view().baseline_version =~= seq![]);
        assert(r.deep_view().published_version =~= seq![]);
        assert(r.deep_view().error =~= seq![]);
        assert(r.deep_view().updated_at =~= seq![]);
        r
    }
}

/// A copy of a list of items.
pub fn copy_items(v: &Vec<WaveItem>) -> (r: Vec<WaveItem>)
    ensures
        r.deep_view() == v.deep_view(),
{
    let mut out: Vec<WaveItem> = Vec::new();
    let mut i: usize = 0;
    while i < v.len()
        invariant
            i <= v@.len(),
            out@.len() == i,
            forall|j: int| 0 <= j < i ==> (#[trigger] out@[j]).deep_view() == v@[j].deep_view(),
        decreases v@.len() - i,
    {
        out.push(v[i].clone());
        i = i + 1;
    }
    assert(out.deep_view() =~= v.deep_view());
    out
}

/// A wave and its latest state.
#[derive(Debug, PartialEq, Eq)]
pub struct Wave {
    pub id: String,
    pub root_module: String,
    pub root_repo: Option<RepoRef>,
    pub target_version: String,
    /// The [`WaveState`]'s wire number.
    pub state: i32,
    pub items: Vec<WaveItem>,
    pub cycle: Vec<String>,
    pub force_bump_satisfied: bool,
    pub created_at: String,
    pub completed_at: String,
}

/// What a [`Wave`] says.
pub struct WaveView {
    pub id: Seq<char>,
    pub root_module: Seq<char>,
    pub root_repo: Option<RepoRefView>,
    pub target_version: Seq<char>,
    pub state: i32,
    pub items: Seq<WaveItemView>,
    pub cycle: Seq<Seq<char>>,
    pub force_bump_satisfied: bool,
    pub created_at: Seq<char>,
    pub completed_at: Seq<char>,
}

impl DeepView for Wave {
    type V = WaveView;

    open spec fn deep_view(&self) -> WaveView {
        WaveView {
            id: self.id@,
            root_module: self.root_module@,
            root_repo: self.root_repo.deep_view(),
            target_version: self.target_version@,
            state: self.state,
            items: self.items.deep_view(),
            cycle: self.cycle.deep_view(),
            force_bump_satisfied: self.force_bump_satisfied,
            created_at: self.created_at@,
            completed_at: self.completed_at@,
        }
    }
}

impl Clone for Wave {
    fn clone(&self) -> (r: Wave)
        ensures
            r.deep_view() == self.deep_view(),
    {
        Wave {
            id: self.id.clone(),
            root_module: self.root_module.clone(),
            root_repo: match &self.root_repo {
                Some(x) => Some(x.clone()),
                None => None,
            },
            target_version: self.target_version.clone(),
            state: self.state,
            items: copy_items(&self.items),
            cycle: copy_texts(&self.cycle),
            force_bump_satisfied: self.force_bump_satisfied,
            created_at: self.created_at.clone(),
            completed_at: self.completed_at.clone(),
        }
    }
}

impl WaveView {
    /// The empty value.
    pub open spec fn empty() -> WaveView {
        WaveView {
            id: seq![],
            root_module: seq![],
            root_repo: None,
            target_version: seq![],
            state: 0,
            items: seq![],
            cycle: seq![],
            force_bump_satisfied: false,
            created_at: seq![],
            completed_at: seq![],
        }
    }
}

impl Default for Wave {
    fn default() -> (r: Wave)
        ensures
            r.deep_view() == WaveView::empty(),
    {
        let r = Wave {
            id: String::new(),
            root_module: String::new(),
            root_repo: None,
            target_version: String::new(),
            state: 0,
            items: Vec::new(),
            cycle: Vec::new(),
            force_bump_satisfied: false,
            created_at: String::new(),
            completed_at: String::new(),
        };
        assert(r.deep_view().id =~= seq![]);
        assert(r.deep_view().root_module =~= seq![]);
        assert(r.deep_view().target_version =~= seq![]);
        assert(r.deep_view().items =~= seq![]);
        assert(r.deep_view().cycle =~= seq![]);
        assert(r.deep_view().created_at =~= seq![]);
        assert(r.deep_view().completed_at =~= seq![]);
        r
    }
}

/// A copy of a list of waves.
pub fn copy_waves(v: &Vec<Wave>) -> (r: Vec<Wave>)
    ensures
        r.deep_view() == v.deep_view(),
{
    let mut out: Vec<Wave> = Vec::new();
    let mut i: usize = 0;
    while i < v.len()
        invariant
            i <= v@.len(),
            out@.len() == i,
            forall|j: int| 0 <= j < i ==> (#[trigger] out@[j]).deep_view() == v@[j].deep_view(),
        decreases v@.len() - i,
    {
        out.push(v[i].clone());
        i = i + 1;
    }
    assert(out.deep_view() =~= v.deep_view());
    out
}

/// One state transition of one item.
#[derive(Debug, PartialEq, Eq)]
pub struct WaveEvent {
    pub wave_id: String,
    pub item_key: String,
    pub from_state: i32,
    pub to_state: i32,
    pub detail: String,
    pub at: String,
}

/// What a [`WaveEvent`] says.
pub struct WaveEventView {
    pub wave_id: Seq<char>,
    pub item_key: Seq<char>,
    pub from_state: i32,
    pub to_state: i32,
    pub detail: Seq<char>,
    pub at: Seq<char>,
}

impl DeepView for WaveEvent {
    type V = WaveEventView;

    open spec fn deep_view(&self) -> WaveEventView {
        WaveEventView {
            wave_id: self.wave_id@,
            item_key: self.item_key@,
            from_state: self.from_state,
            to_state: self.to_state,
            detail: self.detail@,
            at: self.at@,
        }
    }
}

impl Clone for WaveEvent {
    fn clone(&self) -> (r: WaveEvent)
        ensures
            r.deep_view() == self.deep_view(),
    {
        WaveEvent {
            wave_id: self.wave_id.clone(),
            item_key: self.item_key.clone(),
            from_state: self.from_state,
            to_state: self.to_state,
            detail: self.detail.clone(),
            at: self.at.clone(),
        }
    }
}

impl WaveEventView {
    /// The empty value.
    pub open spec fn empty() -> WaveEventView {
        WaveEventView {
            wave_id: seq![],
            item_key: seq![],
            from_state: 0,
            to_state: 0,
            detail: seq![],
            at: seq![],
        }
    }
}

impl Default for WaveEvent {
    fn default() -> (r: WaveEvent)
        ensures
            r.deep_view() == WaveEventView::empty(),
    {
        let r = WaveEvent {
            wave_id: String::new(),
            item_key: String::new(),
            from_state: 0,
            to_state: 0,
            detail: String::new(),
            at: String::new(),
        };
        assert(r.deep_view().wave_id =~= seq![]);
        assert(r.deep_view().item_key =~= seq![]);
        assert(r.deep_view().detail =~= seq![]);
        assert(r.deep_view().at =~= seq![]);
        r
    }
}

/// Every wave, as it is stored.
#[derive(Debug, PartialEq, Eq)]
pub struct WaveStore {
    pub schema_version: u32,
    pub waves: Vec<Wave>,
}

/// What a [`WaveStore`] says.
pub struct WaveStoreView {
    pub schema_version: u32,
    pub waves: Seq<WaveView>,
}

impl DeepView for WaveStore {
    type V = WaveStoreView;

    open spec fn deep_view(&self) -> WaveStoreView {
        WaveStoreView {
            schema_version: self.schema_version,
            waves: self.waves.deep_view(),
        }
    }
}

impl Clone for WaveStore {
    fn clone(&self) -> (r: WaveStore)
        ensures
            r.deep_view() == self.deep_view(),
    {
        WaveStore {
            schema_version: self.schema_version,
            waves: copy_waves(&self.waves),
        }
    }
}

impl WaveStoreView {
    /// The empty value.
    pub open spec fn empty() -> WaveStoreView {
        WaveStoreView {
            schema_version: 0,
            waves: seq![],
        }
    }
}

impl Default for WaveStore {
    fn default() -> (r: WaveStore)
        ensures
            r.deep_view() == WaveStoreView::empty(),
    {
        let r = WaveStore {
            schema_version: 0,
            waves: Vec::new(),
        };
        assert(r.deep_view().waves =~= seq![]);
        r
    }
}

/// One item of a trace.
#[derive(Debug, PartialEq, Eq)]
pub struct BumpSpan {
    pub item_key: String,
    pub repo: Option<RepoRef>,
    pub tier: u32,
    pub final_state: i32,
    pub started_at: String,
    pub ended_at: String,
    pub duration_ms: i64,
    pub change_url: String,
    pub published_version: String,
}

/// What a [`BumpSpan`] says.
pub struct BumpSpanView {
    pub item_key: Seq<char>,
    pub repo: Option<RepoRefView>,
    pub tier: u32,
    pub final_state: i32,
    pub started_at: Seq<char>,
    pub ended_at: Seq<char>,
    pub duration_ms: i64,
    pub change_url: Seq<char>,
    pub published_version: Seq<char>,
}

impl DeepView for BumpSpan {
    type V = BumpSpanView;

    open spec fn deep_view(&self) -> BumpSpanView {
        BumpSpanView {
            item_key: self.item_key@,
            repo: self.repo.deep_view(),
            tier: self.tier,
            final_state: self.final_state,
            started_at: self.started_at@,
            ended_at: self.ended_at@,
            duration_ms: self.duration_ms,
            change_url: self.change_url@,
            published_version: self.published_version@,
        }
    }
}

impl Clone for BumpSpan {
    fn clone(&self) -> (r: BumpSpan)
        ensures
            r.deep_view() == self.deep_view(),
    {
        BumpSpan {
            item_key: self.item_key.clone(),
            repo: match &self.repo {
                Some(x) => Some(x.clone()),
                None => None,
            },
            tier: self.tier,
            final_state: self.final_state,
            started_at: self.started_at.clone(),
            ended_at: self.ended_at.clone(),
            duration_ms: self.duration_ms,
            change_url: self.change_url.clone(),
            published_version: self.published_version.clone(),
        }
    }
}

impl BumpSpanView {
    /// The empty value.
    pub open spec fn empty() -> BumpSpanView {
        BumpSpanView {
            item_key: seq![],
            repo: None,
            tier: 0,
            final_state: 0,
            started_at: seq![],
            ended_at: seq![],
            duration_ms: 0,
            change_url: seq![],
            published_version: seq![],
        }
    }
}

impl Default for BumpSpan {
    fn default() -> (r: BumpSpan)
        ensures
            r.deep_view() == BumpSpanView::empty(),
    {
        let r = BumpSpan {
            item_key: String::new(),
            repo: None,
            tier: 0,
            final_state: 0,
            started_at: String::new(),
            ended_at: String::new(),
            duration_ms: 0,
            change_url: String::new(),
            published_version: String::new(),
        };
        assert(r.deep_view().item_key =~= seq![]);
        assert(r.deep_view().started_at =~= seq![]);
        assert(r.deep_view().ended_at =~= seq![]);
        assert(r.deep_view().change_url =~= seq![]);
        assert(r.deep_view().published_version =~= seq![]);
        r
    }
}

/// A copy of a list of spans.
pub fn copy_spans(v: &Vec<BumpSpan>) -> (r: Vec<BumpSpan>)
    ensures
        r.deep_view() == v.deep_view(),
{
    let mut out: Vec<BumpSpan> = Vec::new();
    let mut i: usize = 0;
    while i < v.len()
        invariant
            i <= v@.len(),
            out@.len() == i,
            forall|j: int| 0 <= j < i ==> (#[trigger] out@[j]).deep_view() == v@[j].deep_view(),
        decreases v@.len() - i,
    {
        out.push(v[i].clone());
        i = i + 1;
    }
    assert(out.deep_view() =~= v.deep_view());
    out
}

/// A wave as a timeline.
#[derive(Debug, PartialEq, Eq)]
pub struct WaveTrace {
    pub wave_id: String,
    pub root_module: String,
    pub target_version: String,
    pub state: i32,
    pub started_at: String,
    pub ended_at: String,
    pub duration_ms: i64,
    pub spans: Vec<BumpSpan>,
}

/// What a [`WaveTrace`] says.
pub struct WaveTraceView {
    pub wave_id: Seq<char>,
    pub root_module: Seq<char>,
    pub target_version: Seq<char>,
    pub state: i32,
    pub started_at: Seq<char>,
    pub ended_at: Seq<char>,
    pub duration_ms: i64,
    pub spans: Seq<BumpSpanView>,
}

impl DeepView for WaveTrace {
    type V = WaveTraceView;

    open spec fn deep_view(&self) -> WaveTraceView {
        WaveTraceView {
            wave_id: self.wave_id@,
            root_module: self.root_module@,
            target_version: self.target_version@,
            state: self.state,
            started_at: self.started_at@,
            ended_at: self.ended_at@,
            duration_ms: self.duration_ms,
            spans: self.spans.deep_view(),
        }
    }
}

impl Clone for WaveTrace {
    fn clone(&self) -> (r: WaveTrace)
        ensures
            r.deep_view() == self.deep_view(),
    {
        WaveTrace {
            wave_id: self.wave_id.clone(),
            root_module: self.root_module.clone(),
            target_version: self.target_version.clone(),
            state: self.state,
            started_at: self.started_at.clone(),
            ended_at: self.ended_at.clone(),
            duration_ms: self.duration_ms,
            spans: copy_spans(&self.spans),
        }
    }
}

impl WaveTraceView {
    /// The empty value.
    pub open spec fn empty() -> WaveTraceView {
        WaveTraceView {
            wave_id: seq![],
            root_module: seq![],
            target_version: seq![],
            state: 0,
            started_at: seq![],
            ended_at: seq![],
            duration_ms: 0,
            spans: seq![],
        }
    }
}

impl Default for WaveTrace {
    fn default() -> (r: WaveTrace)
        ensures
            r.deep_view() == WaveTraceView::empty(),
    {
        let r = WaveTrace {
            wave_id: String::new(),
            root_module: String::new(),
            target_version: String::new(),
            state: 0,
            started_at: String::new(),
            ended_at: String::new(),
            duration_ms: 0,
            spans: Vec::new(),
        };
        assert(r.deep_view().wave_id =~= seq![]);
        assert(r.deep_view().root_module =~= seq![]);
        assert(r.deep_view().target_version =~= seq![]);
        assert(r.deep_view().started_at =~= seq![]);
        assert(r.deep_view().ended_at =~= seq![]);
        assert(r.deep_view().spans =~= seq![]);
        r
    }
}

// ── forge ↔ wave RepoRef/ChangeRef conversions ──────────────────────────
// A flat field copy — the shapes mirror each other.

/// A forge runtime `RepoRef` → wave's stored `RepoRef`.
pub fn to_pb_repo(r: &forge::RepoRef) -> (p: RepoRef)
    ensures
        p.deep_view() == r.deep_view(),
{
    RepoRef {
        forge: r.forge,
        host: r.host.clone(),
        owner: r.owner.clone(),
        name: r.name.clone(),
    }
}

/// Wave's stored `RepoRef` → a forge runtime `RepoRef`.
pub fn to_forge_repo(r: &RepoRef) -> (p: forge::RepoRef)
    ensures
        p.deep_view() == r.deep_view(),
{
    forge::RepoRef {
        forge: r.forge,
        host: r.host.clone(),
        owner: r.owner.clone(),
        name: r.name.clone(),
    }
}

/// A forge `ChangeRef` → wave's stored `ChangeRef`.
pub fn to_pb_change(c: &forge::ChangeRef) -> (p: ChangeRef)
    ensures
        p.deep_view() == c.deep_view(),
{
    ChangeRef { number: c.number, url: c.url.clone(), branch: c.branch.clone() }
}

/// Wave's stored `ChangeRef` → a forge runtime `ChangeRef`.
pub fn to_forge_change(c: &ChangeRef) -> (p: forge::ChangeRef)
    ensures
        p.deep_view() == c.deep_view(),
{
    forge::ChangeRef { number: c.number, url: c.url.clone(), branch: c.branch.clone() }
}

/// Stable key for a stored repo — same format as
/// [`repo_key`](crate::graph::repo_key) (so a forge repo and its converted `pb`
/// form key identically).
pub fn pb_repo_key(r: &RepoRef) -> (s: String)
    ensures
        s@ == r.deep_view().key(),
{
    let mut out = r.host.clone();
    out.push('|');
    out.append(r.owner.as_str());
    out.push('/');
    out.append(r.name.as_str());
    assert(out@ =~= r.deep_view().key());
    out
}

/// `owner/name` for a stored repo (owner may be a nested group path).
pub fn pb_repo_slug(r: &RepoRef) -> (s: String)
    ensures
        s@ == r.deep_view().slug(),
{
    if r.owner.is_empty() {
        r.name.clone()
    } else {
        let mut out = r.owner.clone();
        out.push('/');
        out.append(r.name.as_str());
        assert(out@ =~= r.deep_view().slug());
        out
    }
}

/// The wire number of a state reads back as the state.
pub proof fn item_state_numbers_read_back(s: WaveItemState)
    ensures
        WaveItemState::of_number(s.number()) == s,
{
}

/// The wire number of a state reads back as the state.
pub proof fn wave_state_numbers_read_back(s: WaveState)
    ensures
        WaveState::of_number(s.number()) == s,
{
}

/// The wire numbers of an item's states run along its course, from 1 on; every other
/// number is no state.
pub proof fn item_state_numbers(n: i32)
    ensures
        WaveItemState::of_number(n) is Pending <==> n == 1,
        WaveItemState::of_number(n) is MrOpen <==> n == 2,
        WaveItemState::of_number(n) is CiRunning <==> n == 3,
        WaveItemState::of_number(n) is CiGreen <==> n == 4,
        WaveItemState::of_number(n) is Merging <==> n == 5,
        WaveItemState::of_number(n) is Merged <==> n == 6,
        WaveItemState::of_number(n) is Published <==> n == 7,
        WaveItemState::of_number(n) is Skipped <==> n == 8,
        WaveItemState::of_number(n) is Failed <==> n == 9,
{
}

/// The wire numbers of a wave's states, from 1 on; every other number is no state.
pub proof fn wave_state_numbers(n: i32)
    ensures
        WaveState::of_number(n) is Proposed <==> n == 1,
        WaveState::of_number(n) is Open <==> n == 2,
        WaveState::of_number(n) is Merging <==> n == 3,
        WaveState::of_number(n) is Completed <==> n == 4,
        WaveState::of_number(n) is Aborted <==> n == 5,
{
}

} // verus!
