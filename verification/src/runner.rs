//! The resumable wave runner.
//!
//! [`materialize`] turns a pure [`WavePlan`] into a durable [`pb::Wave`] with one
//! [`pb::WaveItem`] per affected repo, all `PENDING`. A [`WaveRunner`] then drives
//! each item through the cascade state machine:
//!
//! ```text
//! PENDING → MR_OPEN → CI_RUNNING → CI_GREEN → MERGING → MERGED → PUBLISHED
//!            (SKIPPED if nothing to bump; FAILED on CI/conflict/forge error)
//! ```
//!
//! The runner makes no forge call itself: [`WaveRunner::advance`] says what to
//! ask of the forge, and is given the reply. Reconciling is **idempotent +
//! resumable**: every forge op tolerates a prior partial attempt, so a daemon can
//! reconcile on a tick (or after a crash) and it picks up exactly where it left
//! off. Each item's deeper-tier readiness is computed from its upstreams'
//! published versions — a tier-2 repo only opens once the tier-1 repo it consumes
//! has actually published, whose version is detected by re-reading the producer's
//! manifest on its default branch after merge.
//!
//! The [`WaveObserver`] seam receives a [`pb::WaveEvent`] for every transition.
//! The default [`NullObserver`] drops them.
use vstd::prelude::*;
use vstd::string::*;

use crate::cascade::{
    self, begin, respond, ForgeReply, ForgeRequest, ItemStep, ItemStepView, Next, NextView,
    ReplyView, RequestView, RunError, RunErrorView, Stage, StageView,
};
use crate::graph::{PlanItemView, WavePlan, WavePlanView};
use crate::pb::{self, to_pb_repo, WaveEventView, WaveItemState, WaveItemView, WaveState, WaveView};
use crate::provider::{Provider, ProviderChain};
use crate::targets::{self, Targets};
use crate::text::{chars_of, copy_texts, text_of};
use crate::version;

verus! {

/// Observes every wave state transition. Implementations must be cheap +
/// non-blocking (a durable sink should buffer/append, not do slow I/O inline).
pub trait WaveObserver: Send + Sync {
    fn on_event(&self, event: &pb::WaveEvent);
}

/// Drops every event.
#[derive(Debug, Clone, Copy)]
pub struct NullObserver;

impl WaveObserver for NullObserver {
    fn on_event(&self, _event: &pb::WaveEvent) {
    }
}

// ─── ids ────────────────────────────────────────────────────────────────

/// An ASCII letter or digit.
pub open spec fn is_ascii_alnum(c: char) -> bool {
    'a' <= c <= 'z' || 'A' <= c <= 'Z' || '0' <= c <= '9'
}

/// A character as it stands in an id.
pub open spec fn id_char(c: char) -> char {
    if is_ascii_alnum(c) {
        c
    } else {
        '-'
    }
}

/// `s` without its leading dashes.
pub open spec fn no_leading_dash(s: Seq<char>) -> Seq<char>
    decreases s.len(),
{
    if s.len() > 0 && s[0] == '-' {
        no_leading_dash(s.drop_first())
    } else {
        s
    }
}

/// `s` without its trailing dashes.
pub open spec fn no_trailing_dash(s: Seq<char>) -> Seq<char>
    decreases s.len(),
{
    if s.len() > 0 && s.last() == '-' {
        no_trailing_dash(s.drop_last())
    } else {
        s
    }
}

/// `s` fit for an id: what is no ASCII letter or digit is a dash, and no dash
/// stands at either end.
pub open spec fn slugged(s: Seq<char>) -> Seq<char> {
    no_trailing_dash(no_leading_dash(s.map_values(|c: char| id_char(c))))
}

/// `s` fit for an id.
pub fn slug(s: &str) -> (r: String)
    ensures
        r@ == slugged(s@),
{
    let v = chars_of(s);
    let mut w: Vec<char> = Vec::new();
    let mut i: usize = 0;
    while i < v.len()
        invariant
            v@ == s@,
            i <= v@.len(),
            w@.len() == i,
            forall|j: int| 0 <= j < i ==> #[trigger] w@[j] == id_char(s@[j]),
        decreases v@.len() - i,
    {
        let c = v[i];
        if ('a' <= c && c <= 'z') || ('A' <= c && c <= 'Z') || ('0' <= c && c <= '9') {
            w.push(c);
        } else {
            w.push('-');
        }
        i = i + 1;
    }
    let ghost all = s@.map_values(|c: char| id_char(c));
    assert(w@ =~= all);
    let n: usize = w.len();
    let mut from: usize = 0;
    assert(all.subrange(0, n as int) =~= all);
    while from < n && w[from] == '-'
        invariant
            n == w@.len(),
            w@ == all,
            from <= n,
            no_leading_dash(all) == no_leading_dash(all.subrange(from as int, n as int)),
        decreases n - from,
    {
        assert(all.subrange(from as int, n as int).drop_first() =~= all.subrange(
            from + 1,
            n as int,
        ));
        from = from + 1;
    }
    let mut to: usize = n;
    let ghost front = all.subrange(from as int, n as int);
    while to > from && w[to - 1] == '-'
        invariant
            n == w@.len(),
            w@ == all,
            from <= to <= n,
            front == all.subrange(from as int, n as int),
            no_trailing_dash(front) == no_trailing_dash(all.subrange(from as int, to as int)),
        decreases to,
    {
        assert(all.subrange(from as int, to as int).drop_last() =~= all.subrange(
            from as int,
            to - 1,
        ));
        to = to - 1;
    }
    text_of(&w, from, to)
}

/// Is `s` the compact stamp of a time: the digits of its date, a `T`, the six
/// digits of its time of day, and a `Z`? The date has eight digits; that of a
/// year behind 9999 has more, behind a `+`.
pub open spec fn is_stamp(s: Seq<char>) -> bool {
    let n = s.len();
    &&& n >= 16
    &&& s[n - 1] == 'Z'
    &&& s[n - 8] == 'T'
    &&& forall|i: int| n - 7 <= i < n - 1 ==> version::is_digit(#[trigger] s[i])
    &&& forall|i: int|
        0 <= i < n - 8 ==> version::is_digit(#[trigger] s[i]) || i == 0 && n > 16 && s[0] == '+'
}

/// The id of a wave that was made at `stamp`.
pub open spec fn wave_id_text(module: Seq<char>, target: Seq<char>, stamp: Seq<char>) -> Seq<char> {
    "wave-"@ + slugged(module) + "-v"@ + slugged(target) + "-"@ + stamp
}

/// The id of a wave that was made at `stamp`.
pub fn wave_id_at(module: &str, target_version: &str, stamp: &str) -> (r: String)
    ensures
        r@ == wave_id_text(module@, target_version@, stamp@),
{
    let mut out = "wave-".to_owned();
    let m = slug(module);
    out.append(m.as_str());
    out.append("-v");
    let t = slug(target_version);
    out.append(t.as_str());
    out.append("-");
    out.append(stamp);
    out
}

/// A fresh id for a wave that bumps `module` to `target_version`: its module,
/// version and the time it was made.
pub fn wave_id(module: &str, target_version: &str) -> (r: String)
    ensures
        exists|stamp: Seq<char>| #[trigger]
            wave_id_text(module@, target_version@, stamp) == r@ && is_stamp(stamp),
{
    let stamp = utc_stamp();
    wave_id_at(module, target_version, stamp.as_str())
}

// ─── materializing a plan ───────────────────────────────────────────────

/// The pending item for one repo of a plan.
pub open spec fn pending_item(pi: PlanItemView, branch: Seq<char>, now: Seq<char>) -> WaveItemView {
    WaveItemView {
        repo: Some(pi.repo),
        published_module: match pi.published {
            Some(m) => m,
            None => seq![],
        },
        manifest_path: pi.manifest_path,
        tier: pi.tier,
        upstream_modules: pi.upstream_modules,
        state: WaveItemState::Pending.number(),
        branch,
        change: None,
        upstream_targets: seq![],
        baseline_version: seq![],
        published_version: seq![],
        error: seq![],
        updated_at: now,
    }
}

/// The wave `id` of a plan, made at `now`: open, every item pending on the
/// wave's branch.
pub open spec fn materialized(plan: WavePlanView, force: bool, now: Seq<char>, id: Seq<char>) -> WaveView {
    WaveView {
        id,
        root_module: plan.root_module,
        root_repo: plan.root_repo,
        target_version: plan.target_version,
        state: WaveState::Open.number(),
        items: plan.items.map_values(|pi: PlanItemView| pending_item(pi, "wave/"@ + id, now)),
        cycle: plan.cycle,
        force_bump_satisfied: force,
        created_at: now,
        completed_at: seq![],
    }
}

/// Materialize a pure [`WavePlan`] into the durable wave `id` (every item
/// `PENDING`). The wave + branch ids are deterministic so a re-materialize over
/// the same plan is stable.
pub fn materialize_at(plan: &WavePlan, force_bump_satisfied: bool, now: &str, id: &str) -> (w:
    pb::Wave)
    ensures
        w.deep_view() == materialized(plan.deep_view(), force_bump_satisfied, now@, id@),
{
    let mut branch = "wave/".to_owned();
    branch.append(id);
    let mut items: Vec<pb::WaveItem> = Vec::new();
    let mut i: usize = 0;
    while i < plan.items.len()
        invariant
            branch@ == "wave/"@ + id@,
            i <= plan.items@.len(),
            items@.len() == i,
            forall|j: int|
                0 <= j < i ==> (#[trigger] items@[j]).deep_view() == pending_item(
                    plan.items@[j].deep_view(),
                    branch@,
                    now@,
                ),
        decreases plan.items@.len() - i,
    {
        let pi = &plan.items[i];
        let mut item = pb::WaveItem::default();
        item.repo = Some(to_pb_repo(&pi.repo));
        item.published_module = match &pi.published {
            Some(m) => m.clone(),
            None => String::new(),
        };
        item.manifest_path = pi.manifest_path.clone();
        item.tier = pi.tier;
        item.upstream_modules = copy_texts(&pi.upstream_modules);
        item.state = WaveItemState::Pending.to_number();
        item.branch = branch.clone();
        item.updated_at = now.to_owned();
        assert(item.deep_view().published_module =~= pending_item(
            pi.deep_view(),
            branch@,
            now@,
        ).published_module);
        items.push(item);
        i = i + 1;
    }
    let root_repo = match &plan.root_repo {
        Some(r) => Some(to_pb_repo(r)),
        None => None,
    };
    let w = pb::Wave {
        id: id.to_owned(),
        root_module: plan.root_module.clone(),
        root_repo,
        target_version: plan.target_version.clone(),
        state: WaveState::Open.to_number(),
        items,
        cycle: copy_texts(&plan.cycle),
        force_bump_satisfied,
        created_at: now.to_owned(),
        completed_at: String::new(),
    };
    proof {
        let expected = materialized(plan.deep_view(), force_bump_satisfied, now@, id@);
        assert(w.deep_view().items =~= expected.items);
        assert(w.deep_view().completed_at =~= expected.completed_at);
    }
    w
}

/// Materialize a pure [`WavePlan`] into a durable [`pb::Wave`] (every item
/// `PENDING`), made now.
pub fn materialize(plan: &WavePlan, force_bump_satisfied: bool) -> (w: pb::Wave)
    ensures
        exists|now: Seq<char>, stamp: Seq<char>|
            #![trigger materialized(plan.deep_view(), force_bump_satisfied, now, wave_id_text(plan.root_module@, plan.target_version@, stamp))]
            now.len() > 0 && is_stamp(stamp) && w.deep_view() == materialized(
                plan.deep_view(),
                force_bump_satisfied,
                now,
                wave_id_text(plan.root_module@, plan.target_version@, stamp),
            ),
{
    let now = utc_now();
    let id = wave_id(plan.root_module.as_str(), plan.target_version.as_str());
    materialize_at(plan, force_bump_satisfied, now.as_str(), id.as_str())
}

// ─── the next action ────────────────────────────────────────────────────

/// The next forge action an item warrants, derived purely from wave state.
#[derive(Debug, PartialEq, Eq)]
pub enum ItemAction {
    /// An upstream hasn't published yet — nothing to do.
    Wait,
    /// Open the bump: resolved `module → target version` to write.
    Open(Targets),
    /// Poll the open change's CI / merge state.
    Poll,
    /// Merge the green change.
    Merge,
    /// Detect this repo's own publish.
    DetectPublish,
    /// Terminal — nothing more to do.
    Done,
}

/// What an [`ItemAction`] says.
pub enum ItemActionView {
    Wait,
    Open(Seq<(Seq<char>, Seq<char>)>),
    Poll,
    Merge,
    DetectPublish,
    Done,
}

impl DeepView for ItemAction {
    type V = ItemActionView;

    open spec fn deep_view(&self) -> ItemActionView {
        match self {
            ItemAction::Wait => ItemActionView::Wait,
            ItemAction::Open(t) => ItemActionView::Open(t.deep_view()),
            ItemAction::Poll => ItemActionView::Poll,
            ItemAction::Merge => ItemActionView::Merge,
            ItemAction::DetectPublish => ItemActionView::DetectPublish,
            ItemAction::Done => ItemActionView::Done,
        }
    }
}

impl WaveItemView {
    /// Where this item stands.
    pub open spec fn stands(self) -> WaveItemState {
        WaveItemState::of_number(self.state)
    }

    /// Has this item resolved a final published version downstream can depend
    /// on?
    pub open spec fn resolved(self) -> bool {
        self.stands() is Published || self.stands() is Skipped
    }

    /// Has this item reached its end?
    pub open spec fn ended(self) -> bool {
        self.stands() is Published || self.stands() is Skipped || self.stands() is Failed
    }
}

/// The first item that publishes `m`.
pub open spec fn first_publishing(items: Seq<WaveItemView>, m: Seq<char>) -> Option<WaveItemView>
    decreases items.len(),
{
    if items.len() == 0 {
        None
    } else if items[0].published_module == m {
        Some(items[0])
    } else {
        first_publishing(items.skip(1), m)
    }
}

/// The version that the upstream module `m` resolves to: the wave's target for
/// the root module, else what its producer in the wave has published.
pub open spec fn target_for(wave: WaveView, m: Seq<char>) -> Option<Seq<char>> {
    if m == wave.root_module {
        Some(wave.target_version)
    } else {
        match first_publishing(wave.items, m) {
            Some(p) => if p.resolved() && p.published_version.len() > 0 {
                Some(p.published_version)
            } else {
                None
            },
            None => None,
        }
    }
}

/// The version of each of the given modules; `None` where one is not resolved.
pub open spec fn targets_for(wave: WaveView, modules: Seq<Seq<char>>) -> Option<
    Seq<(Seq<char>, Seq<char>)>,
>
    decreases modules.len(),
{
    if modules.len() == 0 {
        Some(seq![])
    } else {
        match (targets_for(wave, modules.drop_last()), target_for(wave, modules.last())) {
            (Some(l), Some(v)) => Some(targets::with_entry(l, modules.last(), v)),
            _ => None,
        }
    }
}

/// The next action for `item`, given the whole `wave`.
pub open spec fn action_for(wave: WaveView, item: WaveItemView) -> ItemActionView {
    match item.stands() {
        WaveItemState::Pending => match targets_for(wave, item.upstream_modules) {
            Some(l) => ItemActionView::Open(l),
            None => ItemActionView::Wait,
        },
        WaveItemState::MrOpen | WaveItemState::CiRunning => ItemActionView::Poll,
        WaveItemState::CiGreen | WaveItemState::Merging => ItemActionView::Merge,
        WaveItemState::Merged => ItemActionView::DetectPublish,
        _ => ItemActionView::Done,
    }
}

/// Where this item stands.
pub fn state_of(item: &pb::WaveItem) -> (r: WaveItemState)
    ensures
        r == item.deep_view().stands(),
{
    WaveItemState::from_number(item.state)
}

/// Has this item resolved a final published version downstream can depend on?
pub fn is_resolved(item: &pb::WaveItem) -> (r: bool)
    ensures
        r == item.deep_view().resolved(),
{
    match state_of(item) {
        WaveItemState::Published => true,
        WaveItemState::Skipped => true,
        _ => false,
    }
}

/// The version that the upstream module `m` resolves to.
fn resolve_target(wave: &pb::Wave, m: &String) -> (r: Option<String>)
    ensures
        r.deep_view() == target_for(wave.deep_view(), m@),
{
    if *m == wave.root_module {
        return Some(wave.target_version.clone());
    }
    let ghost items = wave.items.deep_view();
    let mut i: usize = 0;
    assert(items.skip(0) =~= items);
    while i < wave.items.len()
        invariant
            items == wave.items.deep_view(),
            m@ != wave.root_module@,
            i <= wave.items@.len() == items.len(),
            first_publishing(items, m@) == first_publishing(items.skip(i as int), m@),
        decreases wave.items@.len() - i,
    {
        let p = &wave.items[i];
        assert(items.skip(i as int)[0] == p.deep_view());
        if p.published_module == *m {
            if is_resolved(p) && !p.published_version.is_empty() {
                return Some(p.published_version.clone());
            }
            // It hasn't published — wait.
            return None;
        }
        assert(items.skip(i as int).skip(1) =~= items.skip(i + 1));
        i = i + 1;
    }
    // No producer in the wave — wait.
    None
}

/// Resolve each upstream module's target version. `None` if any upstream hasn't
/// resolved yet (the item must wait). The root module resolves to the wave
/// target; other modules resolve to their producer item's published version.
pub fn resolve_targets(wave: &pb::Wave, item: &pb::WaveItem) -> (r: Option<Targets>)
    ensures
        r.deep_view() == targets_for(wave.deep_view(), item.deep_view().upstream_modules),
{
    let ghost modules = item.upstream_modules.deep_view();
    let mut out = Targets::new();
    let mut i: usize = 0;
    assert(modules.take(0) =~= seq![]);
    while i < item.upstream_modules.len()
        invariant
            modules == item.upstream_modules.deep_view(),
            i <= item.upstream_modules@.len() == modules.len(),
            targets_for(wave.deep_view(), modules.take(i as int)) == Some(out.deep_view()),
        decreases item.upstream_modules@.len() - i,
    {
        let m = &item.upstream_modules[i];
        proof {
            assert(modules.take(i + 1).drop_last() =~= modules.take(i as int));
            assert(modules.take(i + 1).last() == m@);
        }
        match resolve_target(wave, m) {
            Some(v) => {
                out.insert(m.as_str(), v.as_str());
            },
            None => {
                proof {
                    unresolved_prefix(wave.deep_view(), modules, i + 1);
                }
                return None;
            },
        }
        i = i + 1;
    }
    assert(modules.take(modules.len() as int) =~= modules);
    Some(out)
}

/// Where the first `n` modules do not all resolve, all of them do not.
proof fn unresolved_prefix(wave: WaveView, modules: Seq<Seq<char>>, n: int)
    requires
        0 <= n <= modules.len(),
        targets_for(wave, modules.take(n)) is None,
    ensures
        targets_for(wave, modules) is None,
    decreases modules.len(),
{
    if n == modules.len() {
        assert(modules.take(n) =~= modules);
    } else {
        assert(modules.drop_last().take(n) =~= modules.take(n));
        unresolved_prefix(wave, modules.drop_last(), n);
    }
}

/// The next action for `item`, given the whole `wave`. Pure + total.
pub fn next_action(wave: &pb::Wave, item: &pb::WaveItem) -> (r: ItemAction)
    ensures
        r.deep_view() == action_for(wave.deep_view(), item.deep_view()),
{
    match state_of(item) {
        WaveItemState::Pending => match resolve_targets(wave, item) {
            Some(t) => ItemAction::Open(t),
            None => ItemAction::Wait,
        },
        WaveItemState::MrOpen => ItemAction::Poll,
        WaveItemState::CiRunning => ItemAction::Poll,
        WaveItemState::CiGreen => ItemAction::Merge,
        WaveItemState::Merging => ItemAction::Merge,
        WaveItemState::Merged => ItemAction::DetectPublish,
        _ => ItemAction::Done,
    }
}

/// The targets of an item to open name each of its upstream modules, in order,
/// with the version that it resolves to.
pub proof fn open_targets_are_resolved(wave: WaveView, modules: Seq<Seq<char>>, m: Seq<char>)
    ensures
        targets_for(wave, modules) matches Some(l) ==> {
            &&& targets::keys_ascend(l)
            &&& modules.contains(m) ==> target_for(wave, m) is Some && targets::value_of(l, m)
                == target_for(wave, m)
            &&& !modules.contains(m) ==> targets::value_of(l, m) is None
        },
        targets_for(wave, modules) is None <==> exists|i: int|
            0 <= i < modules.len() && target_for(wave, #[trigger] modules[i]) is None,
    decreases modules.len(),
{
    if modules.len() > 0 {
        let init = modules.drop_last();
        let last = modules.last();
        open_targets_are_resolved(wave, init, m);
        assert(modules[modules.len() - 1] == last);
        assert forall|i: int| 0 <= i < init.len() implies #[trigger] init[i] == modules[i] by {}
        assert(modules.contains(m) <==> init.contains(m) || m == last) by {
            if modules.contains(m) && m != last {
                let i = choose|i: int| 0 <= i < modules.len() && modules[i] == m;
                assert(init[i] == m);
            }
            if init.contains(m) {
                let i = choose|i: int| 0 <= i < init.len() && init[i] == m;
                assert(modules[i] == m);
            }
        }
        if let (Some(l), Some(v)) = (targets_for(wave, init), target_for(wave, last)) {
            targets::entry_keeps_order(l, last, v);
            targets::entry_reads_back(l, last, v, m);
        }
        if targets_for(wave, modules) is None {
            if target_for(wave, last) is Some {
                let i = choose|i: int|
                    0 <= i < init.len() && target_for(wave, #[trigger] init[i]) is None;
                assert(target_for(wave, modules[i]) is None);
            }
        } else {
            assert forall|i: int| 0 <= i < modules.len() implies target_for(
                wave,
                #[trigger] modules[i],
            ) is Some by {
                if i < init.len() {
                    assert(target_for(wave, init[i]) is Some);
                }
            }
        }
    }
}

/// Is the item at `j` the first one in the wave that publishes `m`?
pub open spec fn publishes_first(items: Seq<WaveItemView>, m: Seq<char>, j: int) -> bool {
    &&& 0 <= j < items.len()
    &&& items[j].published_module == m
    &&& forall|i: int| 0 <= i < j ==> (#[trigger] items[i]).published_module != m
}

/// Has the wave's first producer of `m` come to a version: is it published or
/// skipped, at the version `v`, which is not empty?
pub open spec fn came_to(wave: WaveView, m: Seq<char>, v: Seq<char>) -> bool {
    exists|j: int| #[trigger]
        publishes_first(wave.items, m, j) && wave.items[j].published_version == v && v.len() > 0
            && (WaveItemState::of_number(wave.items[j].state) is Published
            || WaveItemState::of_number(wave.items[j].state) is Skipped)
}

proof fn first_publishing_is(items: Seq<WaveItemView>, m: Seq<char>)
    ensures
        first_publishing(items, m) matches Some(p) ==> exists|j: int| #[trigger]
            publishes_first(items, m, j) && items[j] == p,
        first_publishing(items, m) is None ==> forall|j: int|
            0 <= j < items.len() ==> (#[trigger] items[j]).published_module != m,
    decreases items.len(),
{
    if items.len() > 0 {
        if items[0].published_module == m {
            assert(publishes_first(items, m, 0));
        } else {
            let tail = items.skip(1);
            first_publishing_is(tail, m);
            if let Some(p) = first_publishing(tail, m) {
                let j = choose|j: int| #[trigger]
                    publishes_first(tail, m, j) && tail[j] == p;
                assert forall|i: int| 0 <= i < j + 1 implies (#[trigger] items[i]).published_module
                    != m by {
                    if i > 0 {
                        assert(tail[i - 1] == items[i]);
                    }
                }
                assert(publishes_first(items, m, j + 1));
            } else {
                assert forall|j: int| 0 <= j < items.len() implies (
                #[trigger] items[j]).published_module != m by {
                    if j > 0 {
                        assert(tail[j - 1] == items[j]);
                    }
                }
            }
        }
    }
}

/// The root module resolves to the wave's target, and no other module does for
/// that reason: any other one resolves to the version that its first producer in
/// the wave has come to, and to nothing before that.
proof fn resolution_is(wave: WaveView, m: Seq<char>)
    ensures
        m == wave.root_module ==> target_for(wave, m) == Some(wave.target_version),
        m != wave.root_module ==> forall|v: Seq<char>|
            target_for(wave, m) == Some(v) <==> #[trigger] came_to(wave, m, v),
{
    first_publishing_is(wave.items, m);
    if m != wave.root_module {
        assert forall|v: Seq<char>| target_for(wave, m) == Some(v) <==> #[trigger] came_to(
            wave,
            m,
            v,
        ) by {
            if let Some(p) = first_publishing(wave.items, m) {
                let k = choose|k: int| #[trigger]
                    publishes_first(wave.items, m, k) && wave.items[k] == p;
                if target_for(wave, m) == Some(v) {
                    assert(publishes_first(wave.items, m, k));
                }
                if came_to(wave, m, v) {
                    let j = choose|j: int| #[trigger]
                        publishes_first(wave.items, m, j) && wave.items[j].published_version == v
                            && v.len() > 0;
                    if j < k {
                        assert(wave.items[j].published_module != m);
                    }
                    if k < j {
                        assert(wave.items[k].published_module != m);
                    }
                }
            }
        }
    }
}

/// What a bump is given for a module: for each upstream module of the item one
/// version, and for no other module any. The version for the root module is the
/// wave's target; for every other module it is the one that the first item of the
/// wave that publishes it has come to, be it published or skipped.
pub proof fn opens_at_what_was_published(wave: WaveView, item: WaveItemView, k: int)
    ensures
        action_for(wave, item) matches ItemActionView::Open(l) ==> {
            &&& forall|i: int|
                0 <= i < item.upstream_modules.len() ==> exists|j: int|
                    0 <= j < l.len() && (#[trigger] l[j]).0 == #[trigger] item.upstream_modules[i]
            &&& 0 <= k < l.len() ==> {
                let (m, v) = l[k];
                &&& item.upstream_modules.contains(m)
                &&& m == wave.root_module ==> v == wave.target_version
                &&& m != wave.root_module ==> came_to(wave, m, v)
                &&& forall|j: int| 0 <= j < l.len() && j != k ==> (#[trigger] l[j]).0 != m
            }
        },
{
    let modules = item.upstream_modules;
    if let ItemActionView::Open(l) = action_for(wave, item) {
        assert(targets_for(wave, modules) == Some(l));
        assert forall|i: int| 0 <= i < modules.len() implies exists|j: int|
            0 <= j < l.len() && (#[trigger] l[j]).0 == #[trigger] modules[i] by {
            open_targets_are_resolved(wave, modules, modules[i]);
            assert(modules.contains(modules[i]));
            targets::value_is_listed(l, modules[i]);
        }
        if 0 <= k < l.len() {
            let (m, v) = l[k];
            open_targets_are_resolved(wave, modules, m);
            targets::listed_is_value(l, k);
            resolution_is(wave, m);
            assert(target_for(wave, m) == Some(v));
            assert forall|j: int| 0 <= j < l.len() && j != k implies (#[trigger] l[j]).0 != m by {
                crate::text::text_lt_irreflexive(m);
                if j < k {
                    assert(crate::text::text_lt(l[j].0, l[k].0));
                } else {
                    assert(crate::text::text_lt(l[k].0, l[j].0));
                }
            }
        }
    }
}

/// An item is opened as soon as it can be, and not before: one that is pending
/// waits exactly where some upstream module of it, other than the root module, has
/// no producer in the wave that has come to a version.
pub proof fn waits_for_its_upstreams(wave: WaveView, item: WaveItemView)
    requires
        WaveItemState::of_number(item.state) is Pending,
    ensures
        action_for(wave, item) is Open || action_for(wave, item) is Wait,
        action_for(wave, item) is Wait <==> exists|i: int|
            0 <= i < item.upstream_modules.len() && (#[trigger] item.upstream_modules[i])
                != wave.root_module && forall|v: Seq<char>| !#[trigger] came_to(
                wave,
                item.upstream_modules[i],
                v,
            ),
{
    let modules = item.upstream_modules;
    open_targets_are_resolved(wave, modules, seq![]);
    if action_for(wave, item) is Wait {
        let i = choose|i: int|
            0 <= i < modules.len() && target_for(wave, #[trigger] modules[i]) is None;
        resolution_is(wave, modules[i]);
        assert(modules[i] != wave.root_module);
        assert forall|v: Seq<char>| !#[trigger] came_to(wave, modules[i], v) by {}
    }
    if exists|i: int|
        0 <= i < modules.len() && (#[trigger] modules[i]) != wave.root_module && forall|
            v: Seq<char>,
        | !#[trigger] came_to(wave, modules[i], v) {
        let i = choose|i: int|
            0 <= i < modules.len() && (#[trigger] modules[i]) != wave.root_module && forall|
                v: Seq<char>,
            | !#[trigger] came_to(wave, modules[i], v);
        resolution_is(wave, modules[i]);
        if let Some(v) = target_for(wave, modules[i]) {
            assert(came_to(wave, modules[i], v));
        }
    }
}

/// What is done with an item follows from its state alone, but for a pending one:
/// an open change is polled, a green one merged, a merged one waits for its
/// publish, and an item at its end is left alone.
pub proof fn action_follows_state(wave: WaveView, item: WaveItemView)
    ensures
        ({
            let s = WaveItemState::of_number(item.state);
            let a = action_for(wave, item);
            &&& a is Poll <==> s is MrOpen || s is CiRunning
            &&& a is Merge <==> s is CiGreen || s is Merging
            &&& a is DetectPublish <==> s is Merged
            &&& a is Open || a is Wait <==> s is Pending
            &&& a is Done <==> s is Published || s is Skipped || s is Failed || s is Unspecified
        }),
{
}

/// `"a to 1.0, b to 2.0"` — for change titles/messages.
pub open spec fn summary_of(l: Seq<(Seq<char>, Seq<char>)>) -> Seq<char>
    decreases l.len(),
{
    if l.len() == 0 {
        seq![]
    } else {
        (if l.len() == 1 {
            seq![]
        } else {
            summary_of(l.drop_last()) + ", "@
        }) + l.last().0 + " to "@ + l.last().1
    }
}

/// `"a to 1.0, b to 2.0"` — for change titles/messages.
pub fn summarize(t: &Targets) -> (r: String)
    ensures
        r@ == summary_of(t.deep_view()),
{
    let ghost l = t.deep_view();
    let mut out = String::new();
    let mut i: usize = 0;
    assert(out@ =~= summary_of(l.take(0)));
    while i < t.len()
        invariant
            l == t.deep_view(),
            i <= l.len(),
            out@ == summary_of(l.take(i as int)),
        decreases l.len() - i,
    {
        assert(l.take(i + 1).drop_last() =~= l.take(i as int));
        if i > 0 {
            out.append(", ");
        }
        let (m, v) = t.at(i);
        out.append(m.as_str());
        out.append(" to ");
        out.append(v.as_str());
        assert(out@ =~= summary_of(l.take(i + 1)));
        i = i + 1;
    }
    assert(l.take(l.len() as int) =~= l);
    out
}

// ─── driving a wave ─────────────────────────────────────────────────────

/// Where a runner is: the wave, the item it looks at, whether this pass has made
/// progress, and the reply it waits for.
pub struct RunnerView {
    pub wave: WaveView,
    pub idx: int,
    pub progressed: bool,
    pub stage: StageView,
}

/// What comes next for a runner.
#[derive(Debug, PartialEq, Eq)]
pub enum Progress {
    /// Another turn, without a reply.
    Continue,
    /// A request to the forge; the next turn is given its reply.
    Ask(ForgeRequest),
    /// A full pass made no progress: the wave is settled for now.
    Finished,
    /// The wave had to stop.
    Stopped(RunError),
}

/// What a [`Progress`] says.
pub enum ProgressView {
    Continue,
    Ask(RequestView),
    Finished,
    Stopped(RunErrorView),
}

impl DeepView for Progress {
    type V = ProgressView;

    open spec fn deep_view(&self) -> ProgressView {
        match self {
            Progress::Continue => ProgressView::Continue,
            Progress::Ask(r) => ProgressView::Ask(r.deep_view()),
            Progress::Finished => ProgressView::Finished,
            Progress::Stopped(e) => ProgressView::Stopped(e.deep_view()),
        }
    }
}

/// What one turn of a runner does: where the runner is after it, the event of
/// the transition, if there was one, and what comes next.
pub struct TurnView {
    pub runner: RunnerView,
    pub event: Option<WaveEventView>,
    pub progress: ProgressView,
}

/// The wave with the item at `i` replaced.
pub open spec fn with_item(wave: WaveView, i: int, item: WaveItemView) -> WaveView {
    WaveView { items: wave.items.update(i, item), ..wave }
}

/// The wave's own state settled from its items: done once every item has ended,
/// aborted where one has failed; the time it was done is kept.
pub open spec fn finalized(wave: WaveView, now: Seq<char>) -> WaveView {
    if forall|i: int| 0 <= i < wave.items.len() ==> (#[trigger] wave.items[i]).ended() {
        WaveView {
            state: if exists|i: int|
                0 <= i < wave.items.len() && (#[trigger] wave.items[i]).stands() is Failed {
                WaveState::Aborted.number()
            } else {
                WaveState::Completed.number()
            },
            completed_at: if wave.completed_at.len() == 0 {
                now
            } else {
                wave.completed_at
            },
            ..wave
        }
    } else {
        WaveView { state: WaveState::Merging.number(), ..wave }
    }
}

impl RunnerView {
    /// At the start of a pass.
    pub open spec fn start(wave: WaveView) -> RunnerView {
        RunnerView { wave, idx: 0, progressed: false, stage: StageView::Idle }
    }

    /// Is the item it looks at there wherever it waits for a reply?
    pub open spec fn valid(self) -> bool {
        0 <= self.idx <= self.wave.items.len() && (self.stage is Idle || self.idx
            < self.wave.items.len())
    }

    /// The turn that a decision on the item at hand makes.
    pub open spec fn takes(self, step: ItemStepView) -> TurnView {
        let wave = with_item(self.wave, self.idx, step.item);
        match step.next {
            NextView::Ask(stage, request) => TurnView {
                runner: RunnerView { wave, stage, ..self },
                event: step.event,
                progress: ProgressView::Ask(request),
            },
            NextView::Settled(progressed) => TurnView {
                runner: RunnerView {
                    wave,
                    idx: self.idx + 1,
                    progressed: self.progressed || progressed,
                    stage: StageView::Idle,
                },
                event: step.event,
                progress: ProgressView::Continue,
            },
            NextView::Stopped(error) => TurnView {
                runner: RunnerView::start(wave),
                event: step.event,
                progress: ProgressView::Stopped(error),
            },
        }
    }

    /// One turn. A runner that waits takes the reply. One that does not looks at
    /// the next item of the pass; behind the last one, a pass with progress is
    /// followed by another, and one without settles the wave.
    pub open spec fn advanced(
        self,
        chain: Seq<Provider>,
        reply: Option<ReplyView>,
        now: Seq<char>,
    ) -> TurnView {
        if self.stage !is Idle {
            match reply {
                Some(reply) => self.takes(
                    cascade::responds(
                        chain,
                        self.wave.id,
                        self.wave.items[self.idx],
                        self.stage,
                        reply,
                        now,
                    ),
                ),
                None => TurnView {
                    runner: RunnerView::start(self.wave),
                    event: None,
                    progress: ProgressView::Stopped(RunErrorView::UnexpectedReply),
                },
            }
        } else if self.idx < self.wave.items.len() {
            let item = self.wave.items[self.idx];
            self.takes(
                cascade::begins(chain, self.wave.id, item, action_for(self.wave, item), now),
            )
        } else if self.progressed {
            TurnView {
                runner: RunnerView::start(self.wave),
                event: None,
                progress: ProgressView::Continue,
            }
        } else {
            TurnView {
                runner: RunnerView::start(finalized(self.wave, now)),
                event: None,
                progress: ProgressView::Finished,
            }
        }
    }
}

/// Was the observer handed the event?
pub open spec fn told<O: WaveObserver>(observer: O, event: WaveEventView) -> bool {
    exists|e: &pb::WaveEvent| #[trigger]
        call_ensures(O::on_event, (&observer, e), ()) && e.deep_view() == event
}

/// Drives wave items through the cascade. Advance every ready item until a full
/// pass makes no progress, then settle the wave's own state. Idempotent +
/// resumable.
#[derive(Debug)]
pub struct WaveRunner {
    wave: pb::Wave,
    idx: usize,
    progressed: bool,
    stage: Stage,
}

impl DeepView for WaveRunner {
    type V = RunnerView;

    closed spec fn deep_view(&self) -> RunnerView {
        RunnerView {
            wave: self.wave.deep_view(),
            idx: self.idx as int,
            progressed: self.progressed,
            stage: self.stage.deep_view(),
        }
    }
}

/// Has this item reached its end?
fn has_ended(item: &pb::WaveItem) -> (r: bool)
    ensures
        r == item.deep_view().ended(),
{
    match state_of(item) {
        WaveItemState::Published => true,
        WaveItemState::Skipped => true,
        WaveItemState::Failed => true,
        _ => false,
    }
}

/// Settle the wave's own state from its items.
pub fn finalize(wave: pb::Wave, now: &str) -> (r: pb::Wave)
    ensures
        r.deep_view() == finalized(wave.deep_view(), now@),
{
    let ghost items = wave.items.deep_view();
    let mut all_ended = true;
    let mut any_failed = false;
    let mut i: usize = 0;
    while i < wave.items.len()
        invariant
            items == wave.items.deep_view(),
            i <= wave.items@.len() == items.len(),
            all_ended == forall|j: int| 0 <= j < i ==> (#[trigger] items[j]).ended(),
            any_failed == exists|j: int| 0 <= j < i && (#[trigger] items[j]).stands() is Failed,
        decreases wave.items@.len() - i,
    {
        assert(items[i as int] == wave.items@[i as int].deep_view());
        if !has_ended(&wave.items[i]) {
            all_ended = false;
        }
        match state_of(&wave.items[i]) {
            WaveItemState::Failed => {
                any_failed = true;
            },
            _ => {},
        }
        i = i + 1;
    }
    let mut wave = wave;
    if all_ended {
        wave.state = if any_failed {
            WaveState::Aborted.to_number()
        } else {
            WaveState::Completed.to_number()
        };
        if wave.completed_at.is_empty() {
            wave.completed_at = now.to_owned();
        }
    } else {
        wave.state = WaveState::Merging.to_number();
    }
    wave
}

impl WaveRunner {
    #[verifier::type_invariant]
    spec fn well_formed(&self) -> bool {
        self.deep_view().valid()
    }

    /// A runner at the start of a pass over `wave`.
    pub fn new(wave: pb::Wave) -> (r: Self)
        ensures
            r.deep_view() == RunnerView::start(wave.deep_view()),
    {
        WaveRunner { wave, idx: 0, progressed: false, stage: Stage::Idle }
    }

    /// The wave as it stands.
    pub fn wave(&self) -> (r: &pb::Wave)
        ensures
            r.deep_view() == self.deep_view().wave,
    {
        &self.wave
    }

    /// The wave as it stands.
    pub fn into_wave(self) -> (r: pb::Wave)
        ensures
            r.deep_view() == self.deep_view().wave,
    {
        self.wave
    }

    /// The turn that a decision on the item at hand makes.
    fn take(self, step: ItemStep) -> (r: (Self, Option<pb::WaveEvent>, Progress))
        requires
            self.deep_view().idx < self.deep_view().wave.items.len(),
        ensures
            self.deep_view().takes(step.deep_view()) == (TurnView {
                runner: r.0.deep_view(),
                event: r.1.deep_view(),
                progress: r.2.deep_view(),
            }),
    {
        let ghost before = self.deep_view();
        let idx = self.idx;
        let progressed = self.progressed;
        let mut wave = self.wave;
        let n: usize = wave.items.len();
        assert(idx < n);
        wave.items.set(idx, step.item);
        assert(wave.deep_view().items =~= before.wave.items.update(
            idx as int,
            step.item.deep_view(),
        ));
        match step.next {
            Next::Ask(stage, request) => (
                WaveRunner { wave, idx, progressed, stage },
                step.event,
                Progress::Ask(request),
            ),
            Next::Settled(p) => (
                WaveRunner { wave, idx: idx + 1, progressed: progressed || p, stage: Stage::Idle },
                step.event,
                Progress::Continue,
            ),
            Next::Stopped(error) => (
                WaveRunner { wave, idx: 0, progressed: false, stage: Stage::Idle },
                step.event,
                Progress::Stopped(error),
            ),
        }
    }

    /// One turn at the time `now`: see [`RunnerView::advanced`].
    pub fn advance_at(self, chain: &ProviderChain, reply: Option<ForgeReply>, now: &str) -> (r: (
        Self,
        Option<pb::WaveEvent>,
        Progress,
    ))
        ensures
            self.deep_view().advanced(chain@, reply.deep_view(), now@) == (TurnView {
                runner: r.0.deep_view(),
                event: r.1.deep_view(),
                progress: r.2.deep_view(),
            }),
    {
        proof {
            use_type_invariant(&self);
        }
        let idle = match &self.stage {
            Stage::Idle => true,
            _ => false,
        };
        if !idle {
            return match reply {
                Some(reply) => {
                    let item = self.wave.items[self.idx].clone();
                    let step = respond(
                        chain,
                        self.wave.id.as_str(),
                        item,
                        &self.stage,
                        reply,
                        now,
                    );
                    self.take(step)
                },
                None => (
                    WaveRunner::new(self.wave),
                    None,
                    Progress::Stopped(RunError::UnexpectedReply),
                ),
            };
        }
        if self.idx < self.wave.items.len() {
            let action = next_action(&self.wave, &self.wave.items[self.idx]);
            let item = self.wave.items[self.idx].clone();
            let step = begin(chain, self.wave.id.as_str(), item, action, now);
            return self.take(step);
        }
        if self.progressed {
            return (WaveRunner::new(self.wave), None, Progress::Continue);
        }
        (WaveRunner::new(finalize(self.wave, now)), None, Progress::Finished)
    }

    /// One turn now; the observer is told of the transition, if there was one.
    pub fn advance<O: WaveObserver>(
        self,
        chain: &ProviderChain,
        observer: &O,
        reply: Option<ForgeReply>,
    ) -> (r: (Self, Progress))
        ensures
            exists|now: Seq<char>|
                #![trigger self.deep_view().advanced(chain@, reply.deep_view(), now)]
                {
                    &&& now.len() > 0
                    &&& self.deep_view().advanced(chain@, reply.deep_view(), now).runner
                        == r.0.deep_view()
                    &&& self.deep_view().advanced(chain@, reply.deep_view(), now).progress
                        == r.1.deep_view()
                    &&& self.deep_view().advanced(chain@, reply.deep_view(), now).event matches Some(
                        event,
                    ) ==> told(*observer, event)
                },
    {
        let now = utc_now();
        let (runner, event, progress) = self.advance_at(chain, reply, now.as_str());
        if let Some(e) = &event {
            observer.on_event(e);
            assert(told(*observer, e.deep_view()));
        }
        (runner, progress)
    }
}

// ─── laws of the cascade ────────────────────────────────────────────────

/// The transitions of the cascade.
pub open spec fn may_move(from: WaveItemState, to: WaveItemState) -> bool {
    match from {
        WaveItemState::Pending => to is MrOpen || to is CiRunning || to is Skipped
            || to is Failed,
        WaveItemState::MrOpen | WaveItemState::CiRunning => to is CiGreen || to is Merged
            || to is Failed,
        WaveItemState::CiGreen | WaveItemState::Merging => to is Merged || to is Failed,
        WaveItemState::Merged => to is Published || to is Failed,
        _ => false,
    }
}

/// How far an item has come; every transition goes up.
pub open spec fn rank(s: WaveItemState) -> nat {
    match s {
        WaveItemState::Pending => 0,
        WaveItemState::MrOpen | WaveItemState::CiRunning => 1,
        WaveItemState::CiGreen | WaveItemState::Merging => 2,
        WaveItemState::Merged => 3,
        _ => 4,
    }
}

/// Does an item in state `s` wait for the reply of `stage`?
pub open spec fn waits_in(s: WaveItemState, stage: StageView) -> bool {
    match stage {
        StageView::Idle => true,
        StageView::PollState | StageView::PollPipeline => s is MrOpen || s is CiRunning,
        StageView::MergeState | StageView::MergeChange => s is CiGreen || s is Merging,
        StageView::Publish => s is Merged,
        _ => s is Pending,
    }
}

impl RunnerView {
    /// Is the runner valid, and does the reply it waits for fit the item?
    pub open spec fn in_step(self) -> bool {
        self.valid() && (self.stage !is Idle ==> waits_in(
            self.wave.items[self.idx].stands(),
            self.stage,
        ))
    }
}

/// What every decision on an item keeps: its state stays, without an event, or
/// it makes one transition of the cascade, with its event; and the stage it goes
/// on to wait in fits the state it is in.
pub open spec fn lawful(wave_id: Seq<char>, before: WaveItemView, step: ItemStepView) -> bool {
    &&& step.event is None ==> step.item.state == before.state && step.next
        != NextView::Settled(true)
    &&& step.event matches Some(e) ==> {
        &&& may_move(before.stands(), step.item.stands())
        &&& e.wave_id == wave_id
        &&& e.item_key == cascade::item_key(before)
        &&& e.from_state == before.state
        &&& e.to_state == step.item.state
        &&& step.next == NextView::Settled(true)
    }
    &&& step.next matches NextView::Ask(stage, _) ==> stage !is Idle && waits_in(
        step.item.stands(),
        stage,
    )
    &&& step.item.repo == before.repo
}

/// Beginning an action is lawful.
pub proof fn beginning_is_lawful(
    chain: Seq<Provider>,
    wave: WaveView,
    item: WaveItemView,
    now: Seq<char>,
)
    ensures
        lawful(
            wave.id,
            item,
            cascade::begins(chain, wave.id, item, action_for(wave, item), now),
        ),
        item.ended() ==> cascade::begins(chain, wave.id, item, action_for(wave, item), now).item
            == item,
{
}

/// Taking a reply is lawful.
pub proof fn responding_is_lawful(
    chain: Seq<Provider>,
    wave_id: Seq<char>,
    item: WaveItemView,
    stage: StageView,
    reply: ReplyView,
    now: Seq<char>,
)
    requires
        stage !is Idle,
        waits_in(item.stands(), stage),
    ensures
        lawful(wave_id, item, cascade::responds(chain, wave_id, item, stage, reply, now)),
{
}

/// Every turn keeps the runner in step with its wave.
pub proof fn turn_keeps_step(
    s: RunnerView,
    chain: Seq<Provider>,
    reply: Option<ReplyView>,
    now: Seq<char>,
)
    requires
        s.in_step(),
    ensures
        s.advanced(chain, reply, now).runner.in_step(),
        s.advanced(chain, reply, now).runner.wave.items.len() == s.wave.items.len(),
{
    if s.stage !is Idle {
        if let Some(reply) = reply {
            responding_is_lawful(chain, s.wave.id, s.wave.items[s.idx], s.stage, reply, now);
        }
    } else if s.idx < s.wave.items.len() {
        beginning_is_lawful(chain, s.wave, s.wave.items[s.idx], now);
    }
}

/// A turn with an event moves the item at hand along one transition of the
/// cascade, and the event says which; a turn without one changes no state; and
/// no turn touches another item.
pub proof fn turn_moves_one_item(
    s: RunnerView,
    chain: Seq<Provider>,
    reply: Option<ReplyView>,
    now: Seq<char>,
    i: int,
)
    requires
        s.in_step(),
        0 <= i < s.wave.items.len(),
    ensures
        ({
            let turn = s.advanced(chain, reply, now);
            let before = s.wave.items[i];
            let after = turn.runner.wave.items[i];
            &&& i != s.idx ==> after == before
            &&& turn.event is None ==> after.state == before.state
            &&& turn.event matches Some(e) ==> 0 <= s.idx < s.wave.items.len() && (i == s.idx
                ==> may_move(before.stands(), after.stands()) && e.from_state == before.state
                && e.to_state == after.state && e.item_key == cascade::item_key(before)
                && e.wave_id == s.wave.id)
        }),
{
    if s.stage !is Idle {
        if let Some(reply) = reply {
            responding_is_lawful(chain, s.wave.id, s.wave.items[s.idx], s.stage, reply, now);
        }
    } else if s.idx < s.wave.items.len() {
        beginning_is_lawful(chain, s.wave, s.wave.items[s.idx], now);
    }
}

/// An item that has reached its end is never touched again.
pub proof fn ended_items_stay(
    s: RunnerView,
    chain: Seq<Provider>,
    reply: Option<ReplyView>,
    now: Seq<char>,
    i: int,
)
    requires
        s.in_step(),
        0 <= i < s.wave.items.len(),
        s.wave.items[i].ended(),
    ensures
        s.advanced(chain, reply, now).runner.wave.items[i] == s.wave.items[i],
{
    if s.stage is Idle && s.idx < s.wave.items.len() {
        beginning_is_lawful(chain, s.wave, s.wave.items[s.idx], now);
    }
}

/// The steps that are still ahead of the first `n` items.
pub open spec fn ahead(items: Seq<WaveItemView>, n: nat) -> nat
    decreases n,
{
    if n == 0 {
        0
    } else {
        ahead(items, (n - 1) as nat) + (4 - rank(items[n - 1].stands())) as nat
    }
}

proof fn ahead_of_update(items: Seq<WaveItemView>, i: int, item: WaveItemView, n: nat)
    requires
        0 <= i < items.len(),
        n <= items.len(),
    ensures
        n <= i ==> ahead(items.update(i, item), n) == ahead(items, n),
        n > i ==> ahead(items.update(i, item), n) + rank(item.stands()) == ahead(items, n) + rank(
            items[i].stands(),
        ),
    decreases n,
{
    if n > 0 {
        ahead_of_update(items, i, item, (n - 1) as nat);
    }
}

/// Reconciling comes to an end: each transition uses up one of the finitely many
/// steps ahead, and no turn adds any.
pub proof fn transitions_run_out(
    s: RunnerView,
    chain: Seq<Provider>,
    reply: Option<ReplyView>,
    now: Seq<char>,
)
    requires
        s.in_step(),
    ensures
        ({
            let turn = s.advanced(chain, reply, now);
            let n = s.wave.items.len();
            &&& turn.event is Some ==> ahead(turn.runner.wave.items, n) < ahead(s.wave.items, n)
            &&& turn.event is None ==> ahead(turn.runner.wave.items, n) == ahead(s.wave.items, n)
        }),
{
    let n = s.wave.items.len();
    if s.stage !is Idle {
        if let Some(reply) = reply {
            let item = s.wave.items[s.idx];
            responding_is_lawful(chain, s.wave.id, item, s.stage, reply, now);
            let step = cascade::responds(chain, s.wave.id, item, s.stage, reply, now);
            ahead_of_update(s.wave.items, s.idx, step.item, n);
        }
    } else if s.idx < s.wave.items.len() {
        let item = s.wave.items[s.idx];
        beginning_is_lawful(chain, s.wave, item, now);
        let step = cascade::begins(chain, s.wave.id, item, action_for(s.wave, item), now);
        ahead_of_update(s.wave.items, s.idx, step.item, n);
    }
}

/// A pass makes progress exactly where it makes a transition.
pub proof fn progress_is_a_transition(
    s: RunnerView,
    chain: Seq<Provider>,
    reply: Option<ReplyView>,
    now: Seq<char>,
)
    requires
        s.in_step(),
        s.stage !is Idle || s.idx < s.wave.items.len(),
        s.advanced(chain, reply, now).progress is Continue,
    ensures
        s.advanced(chain, reply, now).runner.progressed == (s.progressed || s.advanced(
            chain,
            reply,
            now,
        ).event is Some),
{
    if s.stage !is Idle {
        if let Some(reply) = reply {
            responding_is_lawful(chain, s.wave.id, s.wave.items[s.idx], s.stage, reply, now);
        }
    } else {
        beginning_is_lawful(chain, s.wave, s.wave.items[s.idx], now);
    }
}

/// A pending item asks nothing of its forge before every upstream module of it
/// has resolved: the root module to the wave's target, any other one to the
/// version its producer has published.
pub proof fn opens_only_behind_its_upstreams(
    s: RunnerView,
    chain: Seq<Provider>,
    reply: Option<ReplyView>,
    now: Seq<char>,
    m: Seq<char>,
)
    requires
        s.in_step(),
        s.stage is Idle,
        s.idx < s.wave.items.len(),
        s.wave.items[s.idx].stands() is Pending,
        s.advanced(chain, reply, now).progress is Ask,
        s.wave.items[s.idx].upstream_modules.contains(m),
    ensures
        target_for(s.wave, m) is Some,
{
    open_targets_are_resolved(s.wave, s.wave.items[s.idx].upstream_modules, m);
}

/// A runner that has finished or stopped holds nothing but its wave: a new one
/// over the same wave picks up exactly there.
pub proof fn resumes_from_the_wave(
    s: RunnerView,
    chain: Seq<Provider>,
    reply: Option<ReplyView>,
    now: Seq<char>,
)
    requires
        s.in_step(),
        s.advanced(chain, reply, now).progress is Finished || s.advanced(
            chain,
            reply,
            now,
        ).progress is Stopped,
    ensures
        s.advanced(chain, reply, now).runner == RunnerView::start(
            s.advanced(chain, reply, now).runner.wave,
        ),
{
}

/// Where a runner is after `k` turns without a reply.
pub open spec fn turns(s: RunnerView, chain: Seq<Provider>, nows: spec_fn(nat) -> Seq<char>, k: nat) -> RunnerView
    decreases k,
{
    if k == 0 {
        s
    } else {
        turns(s, chain, nows, (k - 1) as nat).advanced(chain, None, nows((k - 1) as nat)).runner
    }
}

/// A wave in which no item has anything to do is left alone: the pass looks at
/// one item after the other, asks nothing of the forge, tells of no transition,
/// touches no item, and settles the wave behind the last one.
pub proof fn idle_wave_is_left_alone(
    wave: WaveView,
    chain: Seq<Provider>,
    nows: spec_fn(nat) -> Seq<char>,
    k: nat,
)
    requires
        k <= wave.items.len(),
        forall|i: int|
            0 <= i < wave.items.len() ==> {
                let action = action_for(wave, #[trigger] wave.items[i]);
                action is Wait || action is Done
            },
    ensures
        ({
            let s = turns(RunnerView::start(wave), chain, nows, k);
            let turn = s.advanced(chain, None, nows(k));
            &&& s.wave == wave
            &&& s.idx == k
            &&& turn.event is None
            &&& k < wave.items.len() ==> turn.progress is Continue
            &&& k == wave.items.len() ==> turn.progress is Finished && turn.runner.wave
                == finalized(wave, nows(k))
        }),
{
    idle_turns(wave, chain, nows, k);
}

proof fn idle_turns(wave: WaveView, chain: Seq<Provider>, nows: spec_fn(nat) -> Seq<char>, k: nat)
    requires
        k <= wave.items.len(),
        forall|i: int|
            0 <= i < wave.items.len() ==> {
                let action = action_for(wave, #[trigger] wave.items[i]);
                action is Wait || action is Done
            },
    ensures
        turns(RunnerView::start(wave), chain, nows, k) == (RunnerView {
            wave,
            idx: k as int,
            progressed: false,
            stage: StageView::Idle,
        }),
    decreases k,
{
    if k > 0 {
        idle_turns(wave, chain, nows, (k - 1) as nat);
        assert(wave.items.update(k - 1, wave.items[k - 1]) =~= wave.items);
    }
}

/// What a runner is given behind the turn `k`: the forge's answer to what it
/// asked then, if it asked.
pub open spec fn answer_to(
    progress: ProgressView,
    forge: spec_fn(nat, RequestView) -> ReplyView,
    k: nat,
) -> Option<ReplyView> {
    match progress {
        ProgressView::Ask(request) => Some(forge(k, request)),
        _ => None,
    }
}

/// The turn behind `k` turns from `s`, each at its own time, and each given the
/// forge's answer to what the one before it asked. What the forge answers may
/// differ from turn to turn.
pub open spec fn answered_turn(
    s: RunnerView,
    chain: Seq<Provider>,
    forge: spec_fn(nat, RequestView) -> ReplyView,
    nows: spec_fn(nat) -> Seq<char>,
    k: nat,
) -> TurnView
    decreases k,
{
    if k == 0 {
        s.advanced(chain, None, nows(0))
    } else {
        let before = answered_turn(s, chain, forge, nows, (k - 1) as nat);
        before.runner.advanced(
            chain,
            answer_to(before.progress, forge, (k - 1) as nat),
            nows(k),
        )
    }
}

/// Does a request change anything at the forge?
pub open spec fn mutates(request: RequestView) -> bool {
    match request {
        RequestView::CreateBranch { .. } => true,
        RequestView::CommitFile { .. } => true,
        RequestView::OpenChange { .. } => true,
        RequestView::EnableAutoMerge { .. } => true,
        RequestView::Merge { .. } => true,
        _ => false,
    }
}

/// Are the first `k` turns from `s` one pass that moves nothing: no turn makes a
/// transition or stops, and the last one, and only that, finishes?
pub open spec fn quiet_pass(
    s: RunnerView,
    chain: Seq<Provider>,
    forge: spec_fn(nat, RequestView) -> ReplyView,
    nows: spec_fn(nat) -> Seq<char>,
    k: nat,
) -> bool {
    &&& k > 0
    &&& forall|j: nat|
        j < k ==> {
            let turn = #[trigger] answered_turn(s, chain, forge, nows, j);
            &&& turn.event is None
            &&& turn.progress !is Stopped
            &&& turn.progress is Finished <==> j == k - 1
        }
}

/// Is the stage one that ends in a transition, or in a stop?
spec fn busy(stage: StageView) -> bool {
    match stage {
        StageView::Idle => false,
        StageView::PollState | StageView::PollPipeline | StageView::Publish => false,
        _ => true,
    }
}

/// From a busy stage a turn makes a transition, stops, or asks on in a busy stage.
proof fn busy_goes_on(
    s: RunnerView,
    chain: Seq<Provider>,
    reply: Option<ReplyView>,
    now: Seq<char>,
)
    requires
        busy(s.stage),
    ensures
        ({
            let turn = s.advanced(chain, reply, now);
            turn.event is Some || turn.progress is Stopped || turn.progress is Ask && busy(
                turn.runner.stage,
            )
        }),
{
}

/// A pass that moves nothing is never in a busy stage.
proof fn quiet_is_not_busy(
    s: RunnerView,
    chain: Seq<Provider>,
    forge: spec_fn(nat, RequestView) -> ReplyView,
    nows: spec_fn(nat) -> Seq<char>,
    k: nat,
    j: nat,
)
    requires
        quiet_pass(s, chain, forge, nows, k),
        j < k,
    ensures
        !busy(answered_turn(s, chain, forge, nows, j).runner.stage),
    decreases k - j,
{
    let turn = answered_turn(s, chain, forge, nows, j);
    if busy(turn.runner.stage) {
        if j == k - 1 {
            assert(turn.progress is Finished);
            finished_is_idle(s, chain, forge, nows, j);
        } else {
            let next = answered_turn(s, chain, forge, nows, j + 1);
            busy_goes_on(turn.runner, chain, answer_to(turn.progress, forge, j), nows(j + 1));
            assert(next == turn.runner.advanced(
                chain,
                answer_to(turn.progress, forge, j),
                nows(j + 1),
            ));
            assert(next.event is None && next.progress !is Stopped);
            quiet_is_not_busy(s, chain, forge, nows, k, j + 1);
        }
    }
}

/// A turn that finishes leaves the runner at the start of a pass.
proof fn finished_is_idle(
    s: RunnerView,
    chain: Seq<Provider>,
    forge: spec_fn(nat, RequestView) -> ReplyView,
    nows: spec_fn(nat) -> Seq<char>,
    j: nat,
)
    requires
        answered_turn(s, chain, forge, nows, j).progress is Finished,
    ensures
        answered_turn(s, chain, forge, nows, j).runner.stage is Idle,
{
}

/// Has an item nothing to open or merge?
spec fn is_calm(wave: WaveView, item: WaveItemView) -> bool {
    action_for(wave, item) !is Open && action_for(wave, item) !is Merge
}

/// What a runner keeps to on a pass that moves nothing: the wave is as it was at
/// the start, and the items behind it are calm.
spec fn undisturbed(wave: WaveView, s: RunnerView) -> bool {
    &&& s.valid()
    &&& s.wave == wave
    &&& !s.progressed
    &&& !busy(s.stage)
    &&& forall|i: int|
        0 <= i < s.idx || i == s.idx && s.stage !is Idle ==> is_calm(
            wave,
            #[trigger] wave.items[i],
        )
}

/// One turn of a pass that moves nothing.
proof fn quiet_turn(
    wave: WaveView,
    s: RunnerView,
    chain: Seq<Provider>,
    reply: Option<ReplyView>,
    now: Seq<char>,
)
    requires
        undisturbed(wave, s),
        ({
            let turn = s.advanced(chain, reply, now);
            &&& turn.event is None
            &&& turn.progress !is Stopped
            &&& !busy(turn.runner.stage)
        }),
    ensures
        ({
            let turn = s.advanced(chain, reply, now);
            &&& turn.progress is Finished ==> s.stage is Idle && s.idx == wave.items.len()
                && turn.runner.wave == finalized(wave, now)
            &&& turn.progress !is Finished ==> undisturbed(wave, turn.runner)
            &&& turn.progress matches ProgressView::Ask(request) ==> !mutates(request)
        }),
{
    if s.idx < wave.items.len() {
        assert(wave.items.update(s.idx, wave.items[s.idx]) =~= wave.items);
    }
}

/// The time of a turn shows in its transition only: a turn without one is the
/// same at any other time, and over any wave with the same id, root and items.
proof fn quiet_turn_repeats(
    s: RunnerView,
    done: WaveView,
    chain: Seq<Provider>,
    reply: Option<ReplyView>,
    now: Seq<char>,
    end: Seq<char>,
    later: Seq<char>,
)
    requires
        s.valid(),
        done == finalized(s.wave, end),
        ({
            let turn = s.advanced(chain, reply, now);
            &&& turn.event is None
            &&& turn.progress !is Stopped
            &&& turn.progress !is Finished
        }),
    ensures
        ({
            let turn = s.advanced(chain, reply, now);
            let again = RunnerView { wave: done, ..s }.advanced(chain, reply, later);
            &&& again.event is None
            &&& again.progress == turn.progress
            &&& turn.runner.wave == s.wave ==> again.runner == (RunnerView {
                wave: done,
                ..turn.runner
            })
        }),
{
    assert(done.items == s.wave.items);
    assert(done.id == s.wave.id);
    if s.stage is Idle && s.idx < s.wave.items.len() {
        let item = s.wave.items[s.idx];
        same_action(s.wave, done, item);
    }
    if s.idx < s.wave.items.len() {
        let turn = s.advanced(chain, reply, now);
        if turn.runner.wave == s.wave {
            assert(done.items.update(s.idx, done.items[s.idx]) =~= done.items);
            assert(turn.runner.wave.items == s.wave.items);
        }
    }
}

/// Where a run is before the turn behind `k` others.
pub open spec fn runner_before(
    s: RunnerView,
    chain: Seq<Provider>,
    forge: spec_fn(nat, RequestView) -> ReplyView,
    nows: spec_fn(nat) -> Seq<char>,
    k: nat,
) -> RunnerView {
    if k == 0 {
        s
    } else {
        answered_turn(s, chain, forge, nows, (k - 1) as nat).runner
    }
}

/// The reply that the turn behind `k` others is given.
spec fn reply_before(
    s: RunnerView,
    chain: Seq<Provider>,
    forge: spec_fn(nat, RequestView) -> ReplyView,
    nows: spec_fn(nat) -> Seq<char>,
    k: nat,
) -> Option<ReplyView> {
    if k == 0 {
        None
    } else {
        answer_to(
            answered_turn(s, chain, forge, nows, (k - 1) as nat).progress,
            forge,
            (k - 1) as nat,
        )
    }
}

proof fn quiet_run(
    w: WaveView,
    chain: Seq<Provider>,
    forge: spec_fn(nat, RequestView) -> ReplyView,
    nows: spec_fn(nat) -> Seq<char>,
    k: nat,
    j: nat,
)
    requires
        quiet_pass(RunnerView::start(w), chain, forge, nows, k),
        j < k,
    ensures
        undisturbed(w, runner_before(RunnerView::start(w), chain, forge, nows, j)),
    decreases j,
{
    let start = RunnerView::start(w);
    if j > 0 {
        let i = (j - 1) as nat;
        quiet_run(w, chain, forge, nows, k, i);
        quiet_is_not_busy(start, chain, forge, nows, k, i);
        let turn = answered_turn(start, chain, forge, nows, i);
        assert(turn.event is None && turn.progress !is Finished);
        quiet_turn(
            w,
            runner_before(start, chain, forge, nows, i),
            chain,
            reply_before(start, chain, forge, nows, i),
            nows(i),
        );
    }
}

/// The pass over the settled wave goes as the one before it did.
proof fn quiet_run_repeats(
    w: WaveView,
    chain: Seq<Provider>,
    forge: spec_fn(nat, RequestView) -> ReplyView,
    nows: spec_fn(nat) -> Seq<char>,
    laters: spec_fn(nat) -> Seq<char>,
    k: nat,
    j: nat,
)
    requires
        quiet_pass(RunnerView::start(w), chain, forge, nows, k),
        j < k,
    ensures
        ({
            let done = finalized(w, nows((k - 1) as nat));
            let first = RunnerView::start(w);
            let second = RunnerView::start(done);
            &&& runner_before(second, chain, forge, laters, j) == (RunnerView {
                wave: done,
                ..runner_before(first, chain, forge, nows, j)
            })
            &&& reply_before(second, chain, forge, laters, j) == reply_before(
                first,
                chain,
                forge,
                nows,
                j,
            )
        }),
    decreases j,
{
    let done = finalized(w, nows((k - 1) as nat));
    let first = RunnerView::start(w);
    if j > 0 {
        let i = (j - 1) as nat;
        quiet_run_repeats(w, chain, forge, nows, laters, k, i);
        quiet_run(w, chain, forge, nows, k, i);
        quiet_run(w, chain, forge, nows, k, j);
        let s = runner_before(first, chain, forge, nows, i);
        let turn = answered_turn(first, chain, forge, nows, i);
        assert(turn.event is None && turn.progress !is Finished);
        quiet_turn_repeats(
            s,
            done,
            chain,
            reply_before(first, chain, forge, nows, i),
            nows(i),
            nows((k - 1) as nat),
            laters(i),
        );
    }
}

/// Reconciling is idempotent. Where the last pass over a wave has moved nothing,
/// reconciling the settled wave again, at any times and with the forge answering
/// as it did, goes the same way: it makes no transition, asks nothing
/// that would change anything at the forge, and leaves the wave as it was. And
/// nothing was left to do: no item waits to be merged, and every pending one waits
/// for an upstream.
pub proof fn reconciling_again_changes_nothing(
    w: WaveView,
    chain: Seq<Provider>,
    forge: spec_fn(nat, RequestView) -> ReplyView,
    nows: spec_fn(nat) -> Seq<char>,
    laters: spec_fn(nat) -> Seq<char>,
    k: nat,
)
    requires
        nows((k - 1) as nat).len() > 0,
        quiet_pass(RunnerView::start(w), chain, forge, nows, k),
    ensures
        ({
            let done = answered_turn(
                RunnerView::start(w),
                chain,
                forge,
                nows,
                (k - 1) as nat,
            ).runner.wave;
            &&& done == finalized(w, nows((k - 1) as nat))
            &&& leaves_alone(done, chain, forge, laters, k)
            &&& forall|i: int|
                0 <= i < done.items.len() ==> {
                    let item = #[trigger] done.items[i];
                    &&& item.stands() !is CiGreen
                    &&& item.stands() !is Merging
                    &&& item.stands() is Pending ==> action_for(done, item) is Wait
                }
        }),
{
    let first = RunnerView::start(w);
    let last = (k - 1) as nat;
    let done = finalized(w, nows((k - 1) as nat));
    let second = RunnerView::start(done);
    quiet_run(w, chain, forge, nows, k, last);
    quiet_is_not_busy(first, chain, forge, nows, k, last);
    assert(answered_turn(first, chain, forge, nows, last).progress is Finished);
    let end = runner_before(first, chain, forge, nows, last);
    quiet_turn(w, end, chain, reply_before(first, chain, forge, nows, last), nows(last));
    quiet_run_repeats(w, chain, forge, nows, laters, k, last);
    settling_is_idempotent(w, nows(last), laters(last));
    assert forall|j: nat| j < k implies ({
        let turn = #[trigger] answered_turn(second, chain, forge, laters, j);
        &&& turn.event is None
        &&& turn.progress !is Stopped
        &&& turn.progress is Finished <==> j == k - 1
        &&& turn.progress matches ProgressView::Ask(request) ==> !mutates(request)
    }) by {
        if j < k - 1 {
            let s = runner_before(first, chain, forge, nows, j);
            let reply = reply_before(first, chain, forge, nows, j);
            let turn = answered_turn(first, chain, forge, nows, j);
            assert(turn.event is None && turn.progress !is Finished);
            quiet_run(w, chain, forge, nows, k, j);
            quiet_is_not_busy(first, chain, forge, nows, k, j);
            quiet_turn(w, s, chain, reply, nows(j));
            quiet_run_repeats(w, chain, forge, nows, laters, k, j);
            quiet_turn_repeats(s, done, chain, reply, nows(j), nows(last), laters(j));
        }
    }
    assert forall|i: int| 0 <= i < done.items.len() implies ({
        let item = #[trigger] done.items[i];
        &&& item.stands() !is CiGreen
        &&& item.stands() !is Merging
        &&& item.stands() is Pending ==> action_for(done, item) is Wait
    }) by {
        assert(is_calm(w, w.items[i]));
        same_action(w, done, w.items[i]);
    }
}

/// Are the first `k` turns from `s` a reconciling: no turn stops, and the last
/// one, and only that, finishes?
pub open spec fn reconciles(
    s: RunnerView,
    chain: Seq<Provider>,
    forge: spec_fn(nat, RequestView) -> ReplyView,
    nows: spec_fn(nat) -> Seq<char>,
    k: nat,
) -> bool {
    &&& k > 0
    &&& forall|j: nat|
        j < k ==> {
            let turn = #[trigger] answered_turn(s, chain, forge, nows, j);
            turn.progress !is Stopped && (turn.progress is Finished <==> j == k - 1)
        }
}

/// What the forge answers from the turn `i` on.
pub open spec fn forge_from(forge: spec_fn(nat, RequestView) -> ReplyView, i: nat) -> spec_fn(
    nat,
    RequestView,
) -> ReplyView {
    |j: nat, request: RequestView| forge(i + j, request)
}

/// The times from the turn `i` on.
pub open spec fn times_from(nows: spec_fn(nat) -> Seq<char>, i: nat) -> spec_fn(nat) -> Seq<char> {
    |j: nat| nows(i + j)
}

/// A turn that leaves the runner at the start of a pass goes on as a new run.
proof fn run_goes_on(
    s: RunnerView,
    chain: Seq<Provider>,
    forge: spec_fn(nat, RequestView) -> ReplyView,
    nows: spec_fn(nat) -> Seq<char>,
    r: nat,
    j: nat,
)
    requires
        answered_turn(s, chain, forge, nows, r).progress is Continue,
    ensures
        answered_turn(s, chain, forge, nows, r + 1 + j) == answered_turn(
            answered_turn(s, chain, forge, nows, r).runner,
            chain,
            forge_from(forge, r + 1),
            times_from(nows, r + 1),
            j,
        ),
    decreases j,
{
    if j > 0 {
        run_goes_on(s, chain, forge, nows, r, (j - 1) as nat);
        assert((r + 1 + j - 1) as nat == r + 1 + (j - 1) as nat);
    }
}

/// Behind a transition the pass does not finish: it comes to its end, and another
/// one starts.
proof fn progress_starts_another_pass(
    s: RunnerView,
    chain: Seq<Provider>,
    forge: spec_fn(nat, RequestView) -> ReplyView,
    nows: spec_fn(nat) -> Seq<char>,
    k: nat,
    j: nat,
) -> (r: nat)
    requires
        reconciles(s, chain, forge, nows, k),
        j < k,
        answered_turn(s, chain, forge, nows, j).runner.progressed,
    ensures
        r < k - 1,
        answered_turn(s, chain, forge, nows, r).progress is Continue,
        answered_turn(s, chain, forge, nows, r).runner == RunnerView::start(
            answered_turn(s, chain, forge, nows, r).runner.wave,
        ),
    decreases k - j,
{
    let turn = answered_turn(s, chain, forge, nows, j);
    if j == k - 1 {
        assert(turn.progress is Finished);
        let before = runner_before(s, chain, forge, nows, j);
        assert(turn == before.advanced(chain, reply_before(s, chain, forge, nows, j), nows(j)));
        assert(false);
        j
    } else {
        let next = answered_turn(s, chain, forge, nows, j + 1);
        assert(next == turn.runner.advanced(
                chain,
                answer_to(turn.progress, forge, j),
                nows(j + 1),
            ));
        assert(next.progress !is Stopped);
        if next.runner.progressed {
            progress_starts_another_pass(s, chain, forge, nows, k, j + 1)
        } else {
            assert(next.progress is Continue);
            j + 1
        }
    }
}

/// A transition is progress.
proof fn event_is_progress(
    s: RunnerView,
    chain: Seq<Provider>,
    forge: spec_fn(nat, RequestView) -> ReplyView,
    nows: spec_fn(nat) -> Seq<char>,
    j: nat,
)
    requires
        answered_turn(s, chain, forge, nows, j).event is Some,
    ensures
        answered_turn(s, chain, forge, nows, j).runner.progressed,
{
    let turn = answered_turn(s, chain, forge, nows, j);
    let before = runner_before(s, chain, forge, nows, j);
    assert(turn == before.advanced(chain, reply_before(s, chain, forge, nows, j), nows(j)));
}

/// What is left of a reconciling behind a turn that starts a pass is one.
proof fn rest_reconciles(
    s: RunnerView,
    chain: Seq<Provider>,
    forge: spec_fn(nat, RequestView) -> ReplyView,
    nows: spec_fn(nat) -> Seq<char>,
    k: nat,
    r: nat,
)
    requires
        reconciles(s, chain, forge, nows, k),
        r < k - 1,
        answered_turn(s, chain, forge, nows, r).progress is Continue,
    ensures
        reconciles(
            answered_turn(s, chain, forge, nows, r).runner,
            chain,
            forge_from(forge, r + 1),
            times_from(nows, r + 1),
            (k - r - 1) as nat,
        ),
{
    let x = answered_turn(s, chain, forge, nows, r).runner;
    let left = (k - r - 1) as nat;
    assert forall|i: nat| i < left implies ({
        let turn = #[trigger] answered_turn(
            x,
            chain,
            forge_from(forge, r + 1),
            times_from(nows, r + 1),
            i,
        );
        turn.progress !is Stopped && (turn.progress is Finished <==> i == left - 1)
    }) by {
        run_goes_on(s, chain, forge, nows, r, i);
        let turn = answered_turn(s, chain, forge, nows, r + 1 + i);
        assert(turn.progress !is Stopped && (turn.progress is Finished <==> r + 1 + i == k - 1));
    }
}

/// Is the pass over `y` that begins behind `r` turns from `start` the last of its
/// `k` turns, and does it move nothing?
spec fn last_quiet_pass(
    start: RunnerView,
    chain: Seq<Provider>,
    forge: spec_fn(nat, RequestView) -> ReplyView,
    nows: spec_fn(nat) -> Seq<char>,
    k: nat,
    y: WaveView,
    r: nat,
) -> bool {
    let tail = forge_from(forge, r);
    let times = times_from(nows, r);
    let again = RunnerView::start(y);
    &&& r < k
    &&& runner_before(start, chain, forge, nows, r) == again
    &&& quiet_pass(again, chain, tail, times, (k - r) as nat)
    &&& answered_turn(again, chain, tail, times, (k - r - 1) as nat) == answered_turn(
        start,
        chain,
        forge,
        nows,
        (k - 1) as nat,
    )
}

/// What is shifted twice is shifted by the sum.
proof fn shifts_join(
    forge: spec_fn(nat, RequestView) -> ReplyView,
    nows: spec_fn(nat) -> Seq<char>,
    i: nat,
    j: nat,
)
    ensures
        forge_from(forge_from(forge, i), j) == forge_from(forge, i + j),
        times_from(times_from(nows, i), j) == times_from(nows, i + j),
{
    assert(forge_from(forge_from(forge, i), j) =~= forge_from(forge, i + j));
    assert(times_from(times_from(nows, i), j) =~= times_from(nows, i + j));
}

/// The last pass of what is left behind a turn that starts a pass is the last
/// pass of the whole.
proof fn last_pass_of_rest(
    s: RunnerView,
    chain: Seq<Provider>,
    forge: spec_fn(nat, RequestView) -> ReplyView,
    nows: spec_fn(nat) -> Seq<char>,
    k: nat,
    r: nat,
    y: WaveView,
    i: nat,
)
    requires
        r < k - 1,
        answered_turn(s, chain, forge, nows, r).progress is Continue,
        last_quiet_pass(
            answered_turn(s, chain, forge, nows, r).runner,
            chain,
            forge_from(forge, r + 1),
            times_from(nows, r + 1),
            (k - r - 1) as nat,
            y,
            i,
        ),
    ensures
        last_quiet_pass(s, chain, forge, nows, k, y, r + 1 + i),
{
    let left = (k - r - 1) as nat;
    shifts_join(forge, nows, r + 1, i);
    run_goes_on(s, chain, forge, nows, r, (left - 1) as nat);
    assert(r + 1 + (left - 1) as nat == (k - 1) as nat);
    if i > 0 {
        run_goes_on(s, chain, forge, nows, r, (i - 1) as nat);
        assert(r + 1 + (i - 1) as nat == (r + 1 + i - 1) as nat);
    } else {
        assert((r + 1 + i - 1) as nat == r);
    }
    assert((k - (r + 1 + i)) as nat == (left - i) as nat);
    assert((k - (r + 1 + i) - 1) as nat == (left - i - 1) as nat);
}

/// The last pass of a reconciling moves nothing: it begins behind `r.1` turns,
/// over the wave `r.0`.
proof fn last_pass_is_quiet(
    w: WaveView,
    chain: Seq<Provider>,
    forge: spec_fn(nat, RequestView) -> ReplyView,
    nows: spec_fn(nat) -> Seq<char>,
    k: nat,
) -> (r: (WaveView, nat))
    requires
        reconciles(RunnerView::start(w), chain, forge, nows, k),
    ensures
        last_quiet_pass(RunnerView::start(w), chain, forge, nows, k, r.0, r.1),
    decreases k,
{
    let start = RunnerView::start(w);
    if forall|j: nat|
        j < k ==> (#[trigger] answered_turn(start, chain, forge, nows, j)).event is None {
        assert(forge_from(forge, 0) =~= forge);
        assert(times_from(nows, 0) =~= nows);
        (w, 0)
    } else {
        let j = choose|j: nat|
            j < k && (#[trigger] answered_turn(start, chain, forge, nows, j)).event is Some;
        event_is_progress(start, chain, forge, nows, j);
        let r = progress_starts_another_pass(start, chain, forge, nows, k, j);
        let x = answered_turn(start, chain, forge, nows, r).runner.wave;
        rest_reconciles(start, chain, forge, nows, k, r);
        let (y, i) = last_pass_is_quiet(
            x,
            chain,
            forge_from(forge, r + 1),
            times_from(nows, r + 1),
            (k - r - 1) as nat,
        );
        last_pass_of_rest(start, chain, forge, nows, k, r, y, i);
        (y, r + 1 + i)
    }
}

/// Reconciling twice is reconciling once: where a reconciling comes to its end,
/// whatever the forge answered on the way, another one over the wave that it
/// leaves, at any times and with the forge answering as it did in the last pass,
/// comes to its end too, makes no transition, asks nothing that would change
/// anything at the forge, and leaves the wave as it was.
pub proof fn reconciling_is_idempotent(
    w: WaveView,
    chain: Seq<Provider>,
    forge: spec_fn(nat, RequestView) -> ReplyView,
    nows: spec_fn(nat) -> Seq<char>,
    laters: spec_fn(nat) -> Seq<char>,
    k: nat,
)
    requires
        nows((k - 1) as nat).len() > 0,
        reconciles(RunnerView::start(w), chain, forge, nows, k),
    ensures
        ({
            let done = answered_turn(
                RunnerView::start(w),
                chain,
                forge,
                nows,
                (k - 1) as nat,
            ).runner.wave;
            exists|r: nat|
                #![trigger forge_from(forge, r)]
                r < k && starts_pass(
                    runner_before(RunnerView::start(w), chain, forge, nows, r),
                ) && leaves_alone(done, chain, forge_from(forge, r), laters, (k - r) as nat)
        }),
{
    let (x, r) = last_pass_is_quiet(w, chain, forge, nows, k);
    let tail = forge_from(forge, r);
    let times = times_from(nows, r);
    assert(times((k - r - 1) as nat) == nows((k - 1) as nat));
    reconciling_again_changes_nothing(x, chain, tail, times, laters, (k - r) as nat);
}

/// Is the runner at the start of a pass?
pub open spec fn starts_pass(s: RunnerView) -> bool {
    s == RunnerView::start(s.wave)
}

/// Are the first `k` turns over the wave `done` a reconciling that makes no
/// transition, asks nothing that would change anything at the forge, and leaves
/// the wave as it is?
pub open spec fn leaves_alone(
    done: WaveView,
    chain: Seq<Provider>,
    forge: spec_fn(nat, RequestView) -> ReplyView,
    nows: spec_fn(nat) -> Seq<char>,
    k: nat,
) -> bool {
    let s = RunnerView::start(done);
    &&& quiet_pass(s, chain, forge, nows, k)
    &&& answered_turn(s, chain, forge, nows, (k - 1) as nat).runner.wave == done
    &&& forall|j: nat|
        j < k ==> ((#[trigger] answered_turn(s, chain, forge, nows, j)).progress
            matches ProgressView::Ask(request) ==> !mutates(request))
}

/// An item's action is decided by the wave's root, target and items alone.
proof fn same_action(a: WaveView, b: WaveView, item: WaveItemView)
    requires
        a.items == b.items,
        a.root_module == b.root_module,
        a.target_version == b.target_version,
    ensures
        action_for(a, item) == action_for(b, item),
{
    same_targets(a, b, item.upstream_modules);
}

proof fn same_targets(a: WaveView, b: WaveView, modules: Seq<Seq<char>>)
    requires
        a.items == b.items,
        a.root_module == b.root_module,
        a.target_version == b.target_version,
    ensures
        targets_for(a, modules) == targets_for(b, modules),
    decreases modules.len(),
{
    if modules.len() > 0 {
        same_targets(a, b, modules.drop_last());
    }
}

/// Settling a settled wave again changes nothing: neither its state nor the time
/// it was done.
pub proof fn settling_is_idempotent(wave: WaveView, now: Seq<char>, later: Seq<char>)
    requires
        now.len() > 0,
    ensures
        finalized(finalized(wave, now), later) == finalized(wave, now),
{
    let once = finalized(wave, now);
    assert(once.items == wave.items);
}

/// A settled wave is completed or aborted exactly where every item has ended,
/// and aborted exactly where moreover one has failed.
pub proof fn settled_state(wave: WaveView, now: Seq<char>)
    ensures
        ({
            let state = WaveState::of_number(finalized(wave, now).state);
            let all_ended = forall|i: int|
                0 <= i < wave.items.len() ==> (#[trigger] wave.items[i]).ended();
            let any_failed = exists|i: int|
                0 <= i < wave.items.len() && (#[trigger] wave.items[i]).stands() is Failed;
            &&& state is Completed <==> all_ended && !any_failed
            &&& state is Aborted <==> all_ended && any_failed
            &&& state is Merging <==> !all_ended
        }),
{
}

/// A freshly materialized wave starts in step, every item pending.
pub proof fn materialized_is_pending(
    plan: WavePlanView,
    force: bool,
    now: Seq<char>,
    id: Seq<char>,
    i: int,
)
    requires
        0 <= i < plan.items.len(),
    ensures
        RunnerView::start(materialized(plan, force, now, id)).in_step(),
        materialized(plan, force, now, id).items.len() == plan.items.len(),
        materialized(plan, force, now, id).items[i].stands() is Pending,
        materialized(plan, force, now, id).items[i].repo == Some(plan.items[i].repo),
{
}

// ─── the clock ──────────────────────────────────────────────────────────

/// `chrono::Utc::now`, as an RFC 3339 text. Nothing is claimed of the time but
/// that its text is not empty.
#[verifier::external_body]
fn utc_now() -> (r: String)
    ensures
        r@.len() > 0,
{
    chrono::Utc::now().to_rfc3339()
}

/// `chrono::Utc::now`, as a compact stamp fit for an id. Nothing is claimed of
/// the time but that its stamp has the form that [`is_stamp`] says.
#[verifier::external_body]
fn utc_stamp() -> (r: String)
    ensures
        is_stamp(r@),
{
    chrono::Utc::now().format("%Y%m%dT%H%M%SZ").to_string()
}

} // verus!
