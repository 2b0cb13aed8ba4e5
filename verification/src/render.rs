//! ASCII rendering for plans + waves (the `propose` / `status` output).
use vstd::prelude::*;
use vstd::string::*;

use crate::discover::{Candidate, CandidateView};
use crate::edge::{BumpDecision, DecisionView};
use crate::forge::{repo_slug, RepoRefView};
use crate::graph::{PlanItem, PlanItemView, WavePlan, WavePlanView};
use crate::pb::{
    self, pb_repo_slug, BumpSpanView, WaveItemState, WaveItemView, WaveState, WaveTraceView,
    WaveView,
};
use crate::text::{self, decimal_of, join, pad_left, pad_right};

verus! {

// ─── names ──────────────────────────────────────────────────────────────

/// The slug of a repo, if there is one.
pub open spec fn slug_or_empty(r: Option<RepoRefView>) -> Seq<char> {
    match r {
        Some(r) => r.slug(),
        None => seq![],
    }
}

/// The slug of a repo, if there is one.
fn slug_opt(r: &Option<pb::RepoRef>) -> (s: String)
    ensures
        s@ == slug_or_empty(r.deep_view()),
{
    match r {
        Some(r) => pb_repo_slug(r),
        None => {
            let none = String::new();
            assert(none@ =~= seq![]);
            none
        },
    }
}

/// The name of an item's state.
pub open spec fn item_state_text(state: i32) -> Seq<char> {
    match WaveItemState::of_number(state) {
        WaveItemState::Unspecified => "UNKNOWN"@,
        WaveItemState::Pending => "PENDING"@,
        WaveItemState::MrOpen => "MR_OPEN"@,
        WaveItemState::CiRunning => "CI_RUNNING"@,
        WaveItemState::CiGreen => "CI_GREEN"@,
        WaveItemState::Merging => "MERGING"@,
        WaveItemState::Merged => "MERGED"@,
        WaveItemState::Published => "PUBLISHED"@,
        WaveItemState::Skipped => "SKIPPED"@,
        WaveItemState::Failed => "FAILED"@,
    }
}

/// The name of an item's state.
pub fn item_state_name(state: i32) -> (r: &'static str)
    ensures
        r@ == item_state_text(state),
{
    match WaveItemState::from_number(state) {
        WaveItemState::Unspecified => "UNKNOWN",
        WaveItemState::Pending => "PENDING",
        WaveItemState::MrOpen => "MR_OPEN",
        WaveItemState::CiRunning => "CI_RUNNING",
        WaveItemState::CiGreen => "CI_GREEN",
        WaveItemState::Merging => "MERGING",
        WaveItemState::Merged => "MERGED",
        WaveItemState::Published => "PUBLISHED",
        WaveItemState::Skipped => "SKIPPED",
        WaveItemState::Failed => "FAILED",
    }
}

/// The name of a wave's state.
pub open spec fn wave_state_text(state: i32) -> Seq<char> {
    match WaveState::of_number(state) {
        WaveState::Unspecified => "UNKNOWN"@,
        WaveState::Proposed => "PROPOSED"@,
        WaveState::Open => "OPEN"@,
        WaveState::Merging => "MERGING"@,
        WaveState::Completed => "COMPLETED"@,
        WaveState::Aborted => "ABORTED"@,
    }
}

/// The name of a wave's state.
pub fn wave_state_name(state: i32) -> (r: &'static str)
    ensures
        r@ == wave_state_text(state),
{
    match WaveState::from_number(state) {
        WaveState::Unspecified => "UNKNOWN",
        WaveState::Proposed => "PROPOSED",
        WaveState::Open => "OPEN",
        WaveState::Merging => "MERGING",
        WaveState::Completed => "COMPLETED",
        WaveState::Aborted => "ABORTED",
    }
}

/// Does the wire number stand for a state that a wave counts as done?
pub open spec fn counts_as_done(state: i32) -> bool {
    WaveItemState::of_number(state) is Published || WaveItemState::of_number(state) is Skipped
}

/// Does the wire number stand for a state that a wave counts as done?
pub fn is_done(state: i32) -> (r: bool)
    ensures
        r == counts_as_done(state),
{
    match WaveItemState::from_number(state) {
        WaveItemState::Published => true,
        WaveItemState::Skipped => true,
        _ => false,
    }
}

/// `before` and the text, where there is any; else nothing.
pub open spec fn tagged(before: Seq<char>, s: Seq<char>) -> Seq<char> {
    if s.len() == 0 {
        seq![]
    } else {
        before + s
    }
}

/// Appends `before` and the text, where there is any.
fn append_tagged(out: &mut String, before: &str, s: &String)
    ensures
        final(out)@ == old(out)@ + tagged(before@, s@),
{
    if !s.is_empty() {
        out.append(before);
        out.append(s.as_str());
    }
    assert(out@ =~= old(out)@ + tagged(before@, s@));
}

// ─── plans ──────────────────────────────────────────────────────────────

/// A decision in brackets, where there is one.
pub open spec fn decision_tag(d: Option<DecisionView>) -> Seq<char> {
    match d {
        Some(DecisionView::NeedsBump) => " [NeedsBump]"@,
        Some(DecisionView::AlreadySatisfied) => " [AlreadySatisfied]"@,
        Some(DecisionView::Conflict(why)) => " [Conflict("@ + quoted(why) + ")]"@,
        None => seq![],
    }
}

/// One repo of a plan.
pub open spec fn plan_line(it: PlanItemView) -> Seq<char> {
    "  tier "@ + text::decimal(it.tier as nat) + " "@ + text::padded_right(it.repo.slug(), 30)
        + decision_tag(it.decision) + "  deps: "@ + text::joined(it.upstream_modules, ", "@)
        + "\n"@
}

/// The repos of a plan, a line each.
pub open spec fn plan_lines(items: Seq<PlanItemView>) -> Seq<char>
    decreases items.len(),
{
    if items.len() == 0 {
        seq![]
    } else {
        plan_lines(items.drop_last()) + plan_line(items.last())
    }
}

/// A plan: the module and its target, its repo, the tiered cascade, and any
/// cycle.
pub open spec fn plan_text(p: WavePlanView) -> Seq<char> {
    "wave plan: "@ + p.root_module + " → "@ + p.target_version + "\n"@ + (match p.root_repo {
        Some(r) => "  root: "@ + r.slug() + "\n"@,
        None => seq![],
    }) + (if p.items.len() == 0 {
        "  (no affected consumers)\n"@
    } else {
        seq![]
    }) + plan_lines(p.items) + (if p.cycle.len() == 0 {
        seq![]
    } else {
        "  ⚠ cycle (unordered): "@ + text::joined(p.cycle, ", "@) + "\n"@
    })
}

fn append_decision(s: &mut String, d: &Option<BumpDecision>)
    ensures
        final(s)@ == old(s)@ + decision_tag(d.deep_view()),
{
    match d {
        Some(BumpDecision::NeedsBump) => {
            s.append(" [NeedsBump]");
        },
        Some(BumpDecision::AlreadySatisfied) => {
            s.append(" [AlreadySatisfied]");
        },
        Some(BumpDecision::Conflict(why)) => {
            s.append(" [Conflict(");
            let q = quote(why.as_str());
            s.append(q.as_str());
            s.append(")]");
        },
        None => {},
    }
    assert(s@ =~= old(s)@ + decision_tag(d.deep_view()));
}

fn append_plan_line(s: &mut String, it: &PlanItem)
    ensures
        final(s)@ == old(s)@ + plan_line(it.deep_view()),
{
    s.append("  tier ");
    let tier = decimal_of(it.tier as u64);
    s.append(tier.as_str());
    s.append(" ");
    let slug = repo_slug(&it.repo);
    let slug = pad_right(slug.as_str(), 30);
    s.append(slug.as_str());
    append_decision(s, &it.decision);
    s.append("  deps: ");
    let deps = join(&it.upstream_modules, ", ");
    s.append(deps.as_str());
    s.append("\n");
    assert(s@ =~= old(s)@ + plan_line(it.deep_view()));
}

/// Render a dry-run plan: the tiered cascade + any cycle.
pub fn render_plan(plan: &WavePlan) -> (r: String)
    ensures
        r@ == plan_text(plan.deep_view()),
{
    let ghost p = plan.deep_view();
    let mut s = "wave plan: ".to_owned();
    s.append(plan.root_module.as_str());
    s.append(" → ");
    s.append(plan.target_version.as_str());
    s.append("\n");
    let ghost head = s@;
    if let Some(rr) = &plan.root_repo {
        s.append("  root: ");
        let slug = repo_slug(rr);
        s.append(slug.as_str());
        s.append("\n");
    }
    let ghost rooted = head + (match p.root_repo {
        Some(r) => "  root: "@ + r.slug() + "\n"@,
        None => seq![],
    });
    assert(s@ =~= rooted);
    if plan.items.len() == 0 {
        s.append("  (no affected consumers)\n");
    }
    let ghost before = rooted + (if p.items.len() == 0 {
        "  (no affected consumers)\n"@
    } else {
        seq![]
    });
    assert(s@ =~= before);
    let mut i: usize = 0;
    assert(before + plan_lines(p.items.take(0)) =~= before);
    while i < plan.items.len()
        invariant
            p == plan.deep_view(),
            i <= plan.items@.len() == p.items.len(),
            s@ == before + plan_lines(p.items.take(i as int)),
        decreases plan.items@.len() - i,
    {
        assert(p.items.take(i + 1).drop_last() =~= p.items.take(i as int));
        assert(p.items.take(i + 1).last() == plan.items@[i as int].deep_view());
        append_plan_line(&mut s, &plan.items[i]);
        assert(s@ =~= before + plan_lines(p.items.take(i + 1)));
        i = i + 1;
    }
    assert(p.items.take(p.items.len() as int) =~= p.items);
    if plan.cycle.len() > 0 {
        s.append("  ⚠ cycle (unordered): ");
        let cycle = join(&plan.cycle, ", ");
        s.append(cycle.as_str());
        s.append("\n");
    }
    assert(s@ =~= plan_text(p));
    s
}

// ─── waves ──────────────────────────────────────────────────────────────

/// One item of a wave.
pub open spec fn wave_line(it: WaveItemView) -> Seq<char> {
    "  tier "@ + text::decimal(it.tier as nat) + " "@ + text::padded_right(
        slug_or_empty(it.repo),
        30,
    ) + " "@ + text::padded_right(item_state_text(it.state), 11) + (match it.change {
        Some(c) => tagged("  "@, c.url),
        None => seq![],
    }) + tagged("  published="@, it.published_version) + tagged("  err: "@, it.error) + "\n"@
}

/// The items of a wave, a line each.
pub open spec fn wave_lines(items: Seq<WaveItemView>) -> Seq<char>
    decreases items.len(),
{
    if items.len() == 0 {
        seq![]
    } else {
        wave_lines(items.drop_last()) + wave_line(items.last())
    }
}

/// A wave: its state, module and target, its items, and any cycle.
pub open spec fn wave_text(w: WaveView) -> Seq<char> {
    "wave "@ + w.id + " ["@ + wave_state_text(w.state) + "]  "@ + w.root_module + " → "@
        + w.target_version + "\n"@ + wave_lines(w.items) + (if w.cycle.len() == 0 {
        seq![]
    } else {
        "  ⚠ cycle: "@ + text::joined(w.cycle, ", "@) + "\n"@
    })
}

fn append_wave_line(s: &mut String, it: &pb::WaveItem)
    ensures
        final(s)@ == old(s)@ + wave_line(it.deep_view()),
{
    s.append("  tier ");
    let tier = decimal_of(it.tier as u64);
    s.append(tier.as_str());
    s.append(" ");
    let slug = slug_opt(&it.repo);
    let slug = pad_right(slug.as_str(), 30);
    s.append(slug.as_str());
    s.append(" ");
    let state = pad_right(item_state_name(it.state), 11);
    s.append(state.as_str());
    if let Some(c) = &it.change {
        append_tagged(s, "  ", &c.url);
    }
    append_tagged(s, "  published=", &it.published_version);
    append_tagged(s, "  err: ", &it.error);
    s.append("\n");
    assert(s@ =~= old(s)@ + wave_line(it.deep_view()));
}

/// Render one wave's per-item cascade state.
pub fn render_wave(wave: &pb::Wave) -> (r: String)
    ensures
        r@ == wave_text(wave.deep_view()),
{
    let ghost w = wave.deep_view();
    let mut s = "wave ".to_owned();
    s.append(wave.id.as_str());
    s.append(" [");
    s.append(wave_state_name(wave.state));
    s.append("]  ");
    s.append(wave.root_module.as_str());
    s.append(" → ");
    s.append(wave.target_version.as_str());
    s.append("\n");
    let ghost head = s@;
    let mut i: usize = 0;
    assert(head + wave_lines(w.items.take(0)) =~= head);
    while i < wave.items.len()
        invariant
            w == wave.deep_view(),
            i <= wave.items@.len() == w.items.len(),
            s@ == head + wave_lines(w.items.take(i as int)),
        decreases wave.items@.len() - i,
    {
        assert(w.items.take(i + 1).drop_last() =~= w.items.take(i as int));
        assert(w.items.take(i + 1).last() == wave.items@[i as int].deep_view());
        append_wave_line(&mut s, &wave.items[i]);
        assert(s@ =~= head + wave_lines(w.items.take(i + 1)));
        i = i + 1;
    }
    assert(w.items.take(w.items.len() as int) =~= w.items);
    if wave.cycle.len() > 0 {
        s.append("  ⚠ cycle: ");
        let cycle = join(&wave.cycle, ", ");
        s.append(cycle.as_str());
        s.append("\n");
    }
    assert(s@ =~= wave_text(w));
    s
}

/// How many of the items are done.
pub open spec fn done_count(items: Seq<WaveItemView>) -> nat
    decreases items.len(),
{
    if items.len() == 0 {
        0
    } else {
        done_count(items.drop_last()) + (if counts_as_done(items.last().state) {
            1nat
        } else {
            0nat
        })
    }
}

/// One wave of a list.
pub open spec fn list_line(w: WaveView) -> Seq<char> {
    text::padded_right(w.id, 42) + " ["@ + text::padded_right(wave_state_text(w.state), 9) + "] "@
        + w.root_module + " → "@ + w.target_version + "  ("@ + text::decimal(done_count(w.items))
        + "/"@ + text::decimal(w.items.len()) + " done)\n"@
}

/// The waves of a list, a line each.
pub open spec fn list_lines(ws: Seq<WaveView>) -> Seq<char>
    decreases ws.len(),
{
    if ws.len() == 0 {
        seq![]
    } else {
        list_lines(ws.drop_last()) + list_line(ws.last())
    }
}

/// A list of waves.
pub open spec fn list_text(ws: Seq<WaveView>) -> Seq<char> {
    if ws.len() == 0 {
        "no waves\n"@
    } else {
        list_lines(ws)
    }
}

/// How many of the items are done.
fn count_done(items: &Vec<pb::WaveItem>) -> (r: usize)
    ensures
        r == done_count(items.deep_view()),
{
    let ghost iv = items.deep_view();
    let mut n: usize = 0;
    let mut i: usize = 0;
    assert(iv.take(0) =~= seq![]);
    while i < items.len()
        invariant
            iv == items.deep_view(),
            n <= i <= items@.len() == iv.len(),
            n == done_count(iv.take(i as int)),
        decreases items@.len() - i,
    {
        assert(iv.take(i + 1).drop_last() =~= iv.take(i as int));
        assert(iv.take(i + 1).last() == items@[i as int].deep_view());
        if is_done(items[i].state) {
            n = n + 1;
        }
        i = i + 1;
    }
    assert(iv.take(iv.len() as int) =~= iv);
    n
}

fn append_list_line(s: &mut String, w: &pb::Wave)
    ensures
        final(s)@ == old(s)@ + list_line(w.deep_view()),
{
    let id = pad_right(w.id.as_str(), 42);
    s.append(id.as_str());
    s.append(" [");
    let state = pad_right(wave_state_name(w.state), 9);
    s.append(state.as_str());
    s.append("] ");
    s.append(w.root_module.as_str());
    s.append(" → ");
    s.append(w.target_version.as_str());
    s.append("  (");
    let done = decimal_of(count_done(&w.items) as u64);
    s.append(done.as_str());
    s.append("/");
    let all = decimal_of(w.items.len() as u64);
    s.append(all.as_str());
    s.append(" done)\n");
    assert(s@ =~= old(s)@ + list_line(w.deep_view()));
}

/// Render a one-line-per-wave summary list.
pub fn render_wave_list(waves: &Vec<pb::Wave>) -> (r: String)
    ensures
        r@ == list_text(waves.deep_view()),
{
    if waves.len() == 0 {
        return "no waves\n".to_owned();
    }
    let ghost wv = waves.deep_view();
    let mut s = String::new();
    let mut i: usize = 0;
    assert(s@ =~= list_lines(wv.take(0)));
    while i < waves.len()
        invariant
            wv == waves.deep_view(),
            i <= waves@.len() == wv.len(),
            s@ == list_lines(wv.take(i as int)),
        decreases waves@.len() - i,
    {
        assert(wv.take(i + 1).drop_last() =~= wv.take(i as int));
        assert(wv.take(i + 1).last() == waves@[i as int].deep_view());
        append_list_line(&mut s, &waves[i]);
        i = i + 1;
    }
    assert(wv.take(wv.len() as int) =~= wv);
    s
}

// ─── traces ─────────────────────────────────────────────────────────────

/// Human-readable milliseconds: `840ms`, `3.2s`.
pub open spec fn ms_text(ms: i64) -> Seq<char> {
    if ms >= 1000 {
        text::decimal((ms as int / 1000) as nat) + "."@ + text::decimal(
            (ms as int % 1000 / 100) as nat,
        ) + "s"@
    } else if ms >= 0 {
        text::decimal(ms as nat) + "ms"@
    } else {
        "-"@ + text::decimal((-ms) as nat) + "ms"@
    }
}

/// Human-readable milliseconds: `840ms`, `3.2s`. No float (avoids precision
/// lints) — tenths from the integer remainder.
pub fn fmt_ms(ms: i64) -> (r: String)
    ensures
        r@ == ms_text(ms),
{
    if ms >= 1000 {
        let n: u64 = ms as u64;
        let mut out = decimal_of(n / 1000);
        out.append(".");
        let tenths = decimal_of((n % 1000) / 100);
        out.append(tenths.as_str());
        out.append("s");
        out
    } else if ms >= 0 {
        let mut out = decimal_of(ms as u64);
        out.append("ms");
        out
    } else {
        let n: i128 = -(ms as i128);
        let mut out = "-".to_owned();
        let digits = decimal_of(n as u64);
        out.append(digits.as_str());
        out.append("ms");
        out
    }
}

/// A span's indent: its cascade depth shows.
pub open spec fn indent(tier: u32) -> nat {
    if tier == 0 {
        2
    } else {
        (2 * tier) as nat
    }
}

/// One span of a trace.
pub open spec fn span_line(sp: BumpSpanView) -> Seq<char> {
    text::spaces(indent(sp.tier)) + text::padded_right(slug_or_empty(sp.repo), 26) + " "@
        + text::padded_right(item_state_text(sp.final_state), 11) + " "@ + text::padded_left(
        if sp.duration_ms > 0 {
            ms_text(sp.duration_ms)
        } else {
            "…"@
        },
        7,
    ) + tagged("  v"@, sp.published_version) + tagged("  "@, sp.change_url) + "\n"@
}

/// The spans of a trace, a line each.
pub open spec fn span_lines(spans: Seq<BumpSpanView>) -> Seq<char>
    decreases spans.len(),
{
    if spans.len() == 0 {
        seq![]
    } else {
        span_lines(spans.drop_last()) + span_line(spans.last())
    }
}

/// A trace as a tier-indented waterfall.
pub open spec fn trace_text(t: WaveTraceView) -> Seq<char> {
    "trace "@ + t.wave_id + " ["@ + wave_state_text(t.state) + "]  "@ + t.root_module + " → "@
        + t.target_version + "  ("@ + (if t.duration_ms > 0 {
        ms_text(t.duration_ms)
    } else {
        "in flight"@
    }) + ")\n"@ + span_lines(t.spans)
}

/// `n` doubled, in spaces.
fn append_indent(s: &mut String, tier: u32)
    ensures
        final(s)@ == old(s)@ + text::spaces(indent(tier)),
{
    let ghost start = s@;
    let n: u32 = if tier == 0 {
        1
    } else {
        tier
    };
    let mut i: u32 = 0;
    assert(start + text::spaces(0) =~= start);
    while i < n
        invariant
            i <= n,
            s@ == start + text::spaces((2 * i) as nat),
        decreases n - i,
    {
        s.append("  ");
        proof {
            reveal_strlit("  ");
            assert(s@ =~= start + text::spaces((2 * (i + 1)) as nat));
        }
        i = i + 1;
    }
}

fn append_span_line(s: &mut String, sp: &pb::BumpSpan)
    ensures
        final(s)@ == old(s)@ + span_line(sp.deep_view()),
{
    append_indent(s, sp.tier);
    let slug = slug_opt(&sp.repo);
    let slug = pad_right(slug.as_str(), 26);
    s.append(slug.as_str());
    s.append(" ");
    let state = pad_right(item_state_name(sp.final_state), 11);
    s.append(state.as_str());
    s.append(" ");
    let dur = if sp.duration_ms > 0 {
        fmt_ms(sp.duration_ms)
    } else {
        "…".to_owned()
    };
    let dur = pad_left(dur.as_str(), 7);
    s.append(dur.as_str());
    append_tagged(s, "  v", &sp.published_version);
    append_tagged(s, "  ", &sp.change_url);
    s.append("\n");
    assert(s@ =~= old(s)@ + span_line(sp.deep_view()));
}

/// Render a wave trace as a tier-indented waterfall.
pub fn render_trace(trace: &pb::WaveTrace) -> (r: String)
    ensures
        r@ == trace_text(trace.deep_view()),
{
    let ghost t = trace.deep_view();
    let mut s = "trace ".to_owned();
    s.append(trace.wave_id.as_str());
    s.append(" [");
    s.append(wave_state_name(trace.state));
    s.append("]  ");
    s.append(trace.root_module.as_str());
    s.append(" → ");
    s.append(trace.target_version.as_str());
    s.append("  (");
    let total = if trace.duration_ms > 0 {
        fmt_ms(trace.duration_ms)
    } else {
        "in flight".to_owned()
    };
    s.append(total.as_str());
    s.append(")\n");
    let ghost head = s@;
    let mut i: usize = 0;
    assert(head + span_lines(t.spans.take(0)) =~= head);
    while i < trace.spans.len()
        invariant
            t == trace.deep_view(),
            i <= trace.spans@.len() == t.spans.len(),
            s@ == head + span_lines(t.spans.take(i as int)),
        decreases trace.spans@.len() - i,
    {
        assert(t.spans.take(i + 1).drop_last() =~= t.spans.take(i as int));
        assert(t.spans.take(i + 1).last() == trace.spans@[i as int].deep_view());
        append_span_line(&mut s, &trace.spans[i]);
        assert(s@ =~= head + span_lines(t.spans.take(i + 1)));
        i = i + 1;
    }
    assert(t.spans.take(t.spans.len() as int) =~= t.spans);
    s
}

// ─── discovery ──────────────────────────────────────────────────────────

/// One candidate, under the heading of its repo where the one before it was
/// another repo's.
pub open spec fn candidate_lines(last: Seq<char>, c: CandidateView) -> Seq<char> {
    (if c.repo.slug() == last {
        seq![]
    } else {
        "\n"@ + c.repo.slug() + "  ("@ + c.manifest_path + ")\n"@
    }) + "  "@ + text::padded_right(c.module, 34) + " "@ + c.current.text() + " → "@ + c.latest
        + "\n"@
}

/// The slug of the last candidate; empty where there is none.
pub open spec fn last_slug(cs: Seq<CandidateView>) -> Seq<char> {
    if cs.len() == 0 {
        seq![]
    } else {
        cs.last().repo.slug()
    }
}

/// The candidates, a line each, grouped by repo.
pub open spec fn discovery_lines(cs: Seq<CandidateView>) -> Seq<char>
    decreases cs.len(),
{
    if cs.len() == 0 {
        seq![]
    } else {
        discovery_lines(cs.drop_last()) + candidate_lines(last_slug(cs.drop_last()), cs.last())
    }
}

/// The repos of the candidates.
pub open spec fn slugs_of(cs: Seq<CandidateView>) -> Set<Seq<char>> {
    cs.map_values(|c: CandidateView| c.repo.slug()).to_set()
}

/// The discovery report.
pub open spec fn discovery_text(cs: Seq<CandidateView>) -> Seq<char> {
    if cs.len() == 0 {
        "no external dependency updates found\n"@
    } else {
        text::decimal(cs.len()) + " external update(s) across "@ + text::decimal(
            slugs_of(cs).len(),
        ) + " repo(s):\n"@ + discovery_lines(cs)
    }
}

/// How many repos the candidates are for.
fn count_repos(candidates: &Vec<Candidate>) -> (r: usize)
    ensures
        r == slugs_of(candidates.deep_view()).len(),
{
    let ghost cs = candidates.deep_view();
    let ghost slugs = cs.map_values(|c: CandidateView| c.repo.slug());
    let mut seen: Vec<String> = Vec::new();
    let mut i: usize = 0;
    while i < candidates.len()
        invariant
            cs == candidates.deep_view(),
            slugs == cs.map_values(|c: CandidateView| c.repo.slug()),
            i <= candidates@.len() == cs.len(),
            seen.deep_view().no_duplicates(),
            forall|k: Seq<char>| #[trigger]
                seen.deep_view().contains(k) <==> slugs.take(i as int).contains(k),
        decreases candidates@.len() - i,
    {
        let slug = repo_slug(&candidates[i].repo);
        let ghost before = seen.deep_view();
        let ghost sv = slug@;
        assert(slugs[i as int] == sv);
        let mut j: usize = 0;
        let mut fresh = true;
        while j < seen.len()
            invariant
                before == seen.deep_view(),
                sv == slug@,
                j <= seen@.len() == before.len(),
                fresh == forall|k: int| 0 <= k < j ==> #[trigger] before[k] != sv,
            decreases seen@.len() - j,
        {
            if seen[j] == slug {
                assert(before[j as int] == sv);
                fresh = false;
            }
            j = j + 1;
        }
        if fresh {
            seen.push(slug);
            assert(seen.deep_view() =~= before.push(sv));
        }
        proof {
            let after = seen.deep_view();
            let told = slugs.take(i as int);
            let next = slugs.take(i + 1);
            assert(next =~= told.push(sv));
            assert forall|k: Seq<char>| #[trigger] after.contains(k) <==> next.contains(k) by {
                if after.contains(k) {
                    let m = choose|m: int| 0 <= m < after.len() && after[m] == k;
                    if m < before.len() {
                        assert(before[m] == k);
                        assert(before.contains(k));
                        let n = choose|n: int| 0 <= n < told.len() && told[n] == k;
                        assert(next[n] == k);
                    } else {
                        assert(next[i as int] == k);
                    }
                }
                if next.contains(k) {
                    let n = choose|n: int| 0 <= n < next.len() && next[n] == k;
                    if n < i {
                        assert(told[n] == k);
                        assert(before.contains(k));
                        let m = choose|m: int| 0 <= m < before.len() && before[m] == k;
                        assert(after[m] == k);
                    } else if fresh {
                        assert(after[before.len() as int] == k);
                    } else {
                        let m = choose|m: int| 0 <= m < before.len() && before[m] == sv;
                        assert(after[m] == k);
                    }
                }
            }
        }
        i = i + 1;
    }
    proof {
        assert(slugs.take(slugs.len() as int) =~= slugs);
        seen.deep_view().unique_seq_to_set();
        assert(seen.deep_view().to_set() =~= slugs.to_set());
    }
    seen.len()
}

fn append_candidate(s: &mut String, last: &String, slug: &String, c: &Candidate)
    requires
        slug@ == c.deep_view().repo.slug(),
    ensures
        final(s)@ == old(s)@ + candidate_lines(last@, c.deep_view()),
{
    if *slug != *last {
        s.append("\n");
        s.append(slug.as_str());
        s.append("  (");
        s.append(c.manifest_path.as_str());
        s.append(")\n");
    }
    s.append("  ");
    let module = pad_right(c.module.as_str(), 34);
    s.append(module.as_str());
    s.append(" ");
    let current = c.current.to_text();
    s.append(current.as_str());
    s.append(" → ");
    s.append(c.latest.as_str());
    s.append("\n");
    assert(s@ =~= old(s)@ + candidate_lines(last@, c.deep_view()));
}

/// Render the discovery report: external out-of-date deps grouped by repo.
pub fn render_discovery(candidates: &Vec<Candidate>) -> (r: String)
    ensures
        r@ == discovery_text(candidates.deep_view()),
{
    if candidates.len() == 0 {
        return "no external dependency updates found\n".to_owned();
    }
    let ghost cs = candidates.deep_view();
    let mut s = decimal_of(candidates.len() as u64);
    s.append(" external update(s) across ");
    let repos = decimal_of(count_repos(candidates) as u64);
    s.append(repos.as_str());
    s.append(" repo(s):\n");
    let ghost head = s@;
    let mut last = String::new();
    let mut i: usize = 0;
    assert(last@ =~= last_slug(cs.take(0)));
    assert(head + discovery_lines(cs.take(0)) =~= head);
    while i < candidates.len()
        invariant
            cs == candidates.deep_view(),
            i <= candidates@.len() == cs.len(),
            last@ == last_slug(cs.take(i as int)),
            s@ == head + discovery_lines(cs.take(i as int)),
        decreases candidates@.len() - i,
    {
        assert(cs.take(i + 1).drop_last() =~= cs.take(i as int));
        assert(cs.take(i + 1).last() == candidates@[i as int].deep_view());
        let slug = repo_slug(&candidates[i].repo);
        append_candidate(&mut s, &last, &slug, &candidates[i]);
        assert(s@ =~= head + discovery_lines(cs.take(i + 1)));
        last = slug;
        i = i + 1;
    }
    assert(cs.take(cs.len() as int) =~= cs);
    s
}

// ─── std ────────────────────────────────────────────────────────────────

/// `s` as its `Debug` form writes it.
pub uninterp spec fn quoted(s: Seq<char>) -> Seq<char>;

/// Is `c` a character that needs no escape in quotes: printable ASCII other than
/// a quote and a backslash?
pub open spec fn is_plain(c: char) -> bool {
    ' ' <= c <= '~' && c != '"' && c != '\'' && c != '\\'
}

/// The `Debug` form of a text: the result is [`quoted`]. A text of plain
/// characters stands between double quotes as it is.
#[verifier::external_body]
pub(crate) fn quote(s: &str) -> (r: String)
    ensures
        r@ == quoted(s@),
        (forall|i: int| 0 <= i < s@.len() ==> is_plain(#[trigger] s@[i])) ==> r@ == seq!['"'] + s@
            + seq!['"'],
{
    format!("{s:?}")
}

// ─── what is told ───────────────────────────────────────────────────────

/// An item counts as done where it is published, number 7, or skipped, number 8, and so
/// every item counts once.
pub proof fn done_are_published_or_skipped(items: Seq<WaveItemView>, item: WaveItemView)
    ensures
        done_count(items.push(item)) == done_count(items) + (if item.state == 7 || item.state == 8 {
            1int
        } else {
            0int
        }),
        done_count(seq![]) == 0,
        done_count(items) <= items.len(),
    decreases items.len(),
{
    let all = items.push(item);
    assert(all.drop_last() =~= items);
    assert(all.last() == item);
    if items.len() > 0 {
        assert(items.drop_last().push(items.last()) =~= items);
        done_are_published_or_skipped(items.drop_last(), items.last());
    }
}

/// A duration of a second and more is told in seconds and whole tenths of them, rounded
/// down; a shorter one in milliseconds, exactly.
pub proof fn durations_are_told(ms: i64, s: nat, tenths: nat, rest: nat)
    ensures
        ms >= 1000 && ms == 1000 * s + 100 * tenths + rest && tenths < 10 && rest < 100
            ==> ms_text(ms) == text::decimal(s) + "."@ + text::decimal(tenths) + "s"@,
        0 <= ms < 1000 ==> ms_text(ms) == text::decimal(ms as nat) + "ms"@,
        ms < 0 ==> ms_text(ms) == "-"@ + text::decimal((0 - ms) as nat) + "ms"@,
{
}

/// The deeper a span's tier, the further it is indented; the first two stand alike.
pub proof fn deeper_is_further_in(tier: u32)
    ensures
        indent(0) == indent(1) == 2,
        0 < tier < u32::MAX ==> indent((tier + 1) as u32) == indent(tier) + 2,
{
}

/// Which name stands for which state of an item, by its number.
pub proof fn item_states_have_names(n: i32)
    ensures
        n == 1 ==> item_state_text(n) == "PENDING"@,
        n == 2 ==> item_state_text(n) == "MR_OPEN"@,
        n == 3 ==> item_state_text(n) == "CI_RUNNING"@,
        n == 4 ==> item_state_text(n) == "CI_GREEN"@,
        n == 5 ==> item_state_text(n) == "MERGING"@,
        n == 6 ==> item_state_text(n) == "MERGED"@,
        n == 7 ==> item_state_text(n) == "PUBLISHED"@,
        n == 8 ==> item_state_text(n) == "SKIPPED"@,
        n == 9 ==> item_state_text(n) == "FAILED"@,
        n < 1 || n > 9 ==> item_state_text(n) == "UNKNOWN"@,
{
}

/// Which name stands for which state of a wave, by its number.
pub proof fn wave_states_have_names(n: i32)
    ensures
        n == 1 ==> wave_state_text(n) == "PROPOSED"@,
        n == 2 ==> wave_state_text(n) == "OPEN"@,
        n == 3 ==> wave_state_text(n) == "MERGING"@,
        n == 4 ==> wave_state_text(n) == "COMPLETED"@,
        n == 5 ==> wave_state_text(n) == "ABORTED"@,
        n < 1 || n > 5 ==> wave_state_text(n) == "UNKNOWN"@,
{
}

/// Do the parts stand in `s` in this order, none within another?
pub open spec fn tells(s: Seq<char>, parts: Seq<Seq<char>>) -> bool
    decreases parts.len(),
{
    parts.len() == 0 || exists|a: Seq<char>, b: Seq<char>|
        s == #[trigger] (a + parts[0] + b) && tells(b, parts.skip(1))
}

proof fn tells_one(s: Seq<char>, part: Seq<char>, a: Seq<char>, b: Seq<char>, rest: Seq<Seq<char>>)
    requires
        s == a + part + b,
        tells(b, rest),
    ensures
        tells(s, seq![part] + rest),
{
    let parts = seq![part] + rest;
    assert(parts.skip(1) =~= rest);
    assert(parts[0] == part);
    assert(s == a + parts[0] + b && tells(b, parts.skip(1)));
}

/// One more repo of a plan is one more line behind those of the others, which tells its
/// tier, its slug, what was decided and what it depends on.
#[verifier::rlimit(60)]
pub proof fn plans_tell_every_repo(items: Seq<PlanItemView>, it: PlanItemView)
    ensures
        plan_lines(seq![]) == Seq::<char>::empty(),
        plan_lines(items).is_prefix_of(plan_lines(items.push(it))),
        tells(
            plan_lines(items.push(it)).skip(plan_lines(items).len() as int),
            seq![
                text::decimal(it.tier as nat),
                it.repo.slug(),
                decision_tag(it.decision),
                text::joined(it.upstream_modules, ", "@),
                "\n"@,
            ],
        ),
{
    let all = items.push(it);
    assert(all.drop_last() =~= items);
    let before = plan_lines(items);
    let line = plan_line(it);
    assert(plan_lines(all) == before + line);
    assert((before + line).skip(before.len() as int) =~= line);
    assert((before + line).subrange(0, before.len() as int) =~= before);
    let end = seq!["\n"@];
    let none = Seq::<Seq<char>>::empty();
    let deps = text::joined(it.upstream_modules, ", "@);
    let slug = it.repo.slug();
    let pad = text::padded_right(slug, 30).skip(slug.len() as int);
    assert(text::padded_right(slug, 30) =~= slug + pad);
    let e = Seq::<char>::empty();
    assert("\n"@ =~= e + "\n"@ + e);
    tells_one("\n"@, "\n"@, e, e, none);
    assert(seq!["\n"@] + none =~= end);
    let l1 = "  deps: "@ + deps + "\n"@;
    tells_one(l1, deps, "  deps: "@, "\n"@, end);
    let l2 = pad + decision_tag(it.decision) + l1;
    tells_one(l2, decision_tag(it.decision), pad, l1, seq![deps] + end);
    let l3 = " "@ + slug + l2;
    tells_one(l3, slug, " "@, l2, seq![decision_tag(it.decision)] + (seq![deps] + end));
    assert(line =~= "  tier "@ + text::decimal(it.tier as nat) + l3);
    tells_one(
        line,
        text::decimal(it.tier as nat),
        "  tier "@,
        l3,
        seq![slug] + (seq![decision_tag(it.decision)] + (seq![deps] + end)),
    );
    assert(seq![text::decimal(it.tier as nat)] + (seq![slug] + (seq![decision_tag(it.decision)] + (
    seq![deps] + end))) =~= seq![
        text::decimal(it.tier as nat),
        slug,
        decision_tag(it.decision),
        deps,
        "\n"@,
    ]);
}

/// A candidate is told under the heading of its repo, which is there once for the
/// candidates of a repo that follow each other; the line tells the module, what it is at
/// and what it could be at.
#[verifier::rlimit(60)]
pub proof fn discovery_groups_by_repo(cs: Seq<CandidateView>, c: CandidateView)
    requires
        c.repo.name.len() > 0,
    ensures
        discovery_lines(seq![]) == Seq::<char>::empty(),
        discovery_lines(cs.push(c)) == discovery_lines(cs) + ((if cs.len() > 0
            && cs.last().repo.slug() == c.repo.slug() {
            seq![]
        } else {
            "\n"@ + c.repo.slug() + "  ("@ + c.manifest_path + ")\n"@
        }) + "  "@ + text::padded_right(c.module, 34) + " "@ + c.current.text() + " → "@ + c.latest
            + "\n"@),
{
    let all = cs.push(c);
    assert(all.drop_last() =~= cs);
    assert(discovery_lines(all) == discovery_lines(cs) + candidate_lines(last_slug(cs), c));
}

/// One more item of a wave is one more line: its tier, its repo, its state, where its
/// change is, what it published and what went wrong, each of the last three only where
/// there is any.
#[verifier::rlimit(60)]
pub proof fn waves_tell_every_item(items: Seq<WaveItemView>, it: WaveItemView)
    ensures
        wave_lines(seq![]) == Seq::<char>::empty(),
        wave_lines(items.push(it)) == wave_lines(items) + ("  tier "@ + text::decimal(
            it.tier as nat,
        ) + " "@ + text::padded_right(
            match it.repo {
                Some(r) => r.slug(),
                None => seq![],
            },
            30,
        ) + " "@ + text::padded_right(item_state_text(it.state), 11) + (if it.change is Some && (
        it.change->0).url.len() > 0 {
            "  "@ + (it.change->0).url
        } else {
            seq![]
        }) + (if it.published_version.len() > 0 {
            "  published="@ + it.published_version
        } else {
            seq![]
        }) + (if it.error.len() > 0 {
            "  err: "@ + it.error
        } else {
            seq![]
        }) + "\n"@),
{
    let all = items.push(it);
    assert(all.drop_last() =~= items);
    assert(wave_lines(all) == wave_lines(items) + wave_line(it));
}

/// One more wave of a list is one more line, which tells how many of its items are done
/// and how many there are.
#[verifier::rlimit(60)]
pub proof fn lists_tell_every_wave(ws: Seq<WaveView>, w: WaveView)
    ensures
        list_text(ws.push(w)) == (if ws.len() == 0 {
            seq![]
        } else {
            list_text(ws)
        }) + (text::padded_right(w.id, 42) + " ["@ + text::padded_right(wave_state_text(w.state), 9)
            + "] "@ + w.root_module + " → "@ + w.target_version + "  ("@ + text::decimal(
            done_count(w.items),
        ) + "/"@ + text::decimal(w.items.len()) + " done)\n"@),
        list_text(seq![]) == "no waves\n"@,
{
    let all = ws.push(w);
    assert(all.drop_last() =~= ws);
    assert(list_lines(all) == list_lines(ws) + list_line(w));
}

/// One more span of a trace is one more line, indented by its tier; one that has no
/// duration yet is told without one.
#[verifier::rlimit(60)]
pub proof fn traces_tell_every_span(spans: Seq<BumpSpanView>, sp: BumpSpanView)
    ensures
        span_lines(seq![]) == Seq::<char>::empty(),
        span_lines(spans.push(sp)) == span_lines(spans) + (text::spaces(indent(sp.tier))
            + text::padded_right(
            match sp.repo {
                Some(r) => r.slug(),
                None => seq![],
            },
            26,
        ) + " "@ + text::padded_right(item_state_text(sp.final_state), 11) + " "@
            + text::padded_left(
            if sp.duration_ms > 0 {
                ms_text(sp.duration_ms)
            } else {
                "…"@
            },
            7,
        ) + (if sp.published_version.len() > 0 {
            "  v"@ + sp.published_version
        } else {
            seq![]
        }) + (if sp.change_url.len() > 0 {
            "  "@ + sp.change_url
        } else {
            seq![]
        }) + "\n"@),
{
    let all = spans.push(sp);
    assert(all.drop_last() =~= spans);
    assert(span_lines(all) == span_lines(spans) + span_line(sp));
}

} // verus!
