//! Wave tracing: a durable event log + projection to a [`pb::WaveTrace`].
//!
//! The [`WaveObserver`](crate::runner::WaveObserver) seam emits a
//! [`pb::WaveEvent`] per transition. Each is appended to a per-wave [`EventLog`] —
//! length-delimited messages (the source of truth). [`project`] folds the log +
//! the wave's items back into a [`pb::WaveTrace`] of one [`pb::BumpSpan`] per repo
//! (start = first event, end = terminal event), which the CLI renders as a
//! waterfall.
//!
//! Projection is pure + idempotent: re-running it over the same log yields the
//! same trace, so a resuming daemon can re-export at any time. Reading and
//! writing the log's file is the caller's.
use vstd::prelude::*;
use vstd::string::*;

use crate::cascade;
use crate::pb::{
    self, pb_repo_key, BumpSpanView, WaveEventView, WaveItemState, WaveItemView, WaveTraceView,
    WaveView,
};
use crate::sort::{self, Ranked};
use crate::text::{self, text_before};

verus! {

// ─── the log ────────────────────────────────────────────────────────────

/// An append-only, per-wave log of length-delimited messages.
#[derive(Debug, PartialEq, Eq)]
pub struct EventLog {
    dir: String,
    file: String,
}

impl EventLog {
    /// The directory that holds the log.
    pub closed spec fn dir_text(&self) -> Seq<char> {
        self.dir@
    }

    /// The name of the log's file.
    pub closed spec fn file_text(&self) -> Seq<char> {
        self.file@
    }

    /// The log for `wave_id` under `dir`.
    pub fn for_wave(dir: &str, wave_id: &str) -> (r: Self)
        ensures
            r.dir_text() == dir@,
            r.file_text() == wave_id@ + ".log"@,
    {
        let mut file = wave_id.to_owned();
        file.append(".log");
        EventLog { dir: dir.to_owned(), file }
    }

    /// The directory that holds the log.
    pub fn dir(&self) -> (r: &String)
        ensures
            r@ == self.dir_text(),
    {
        &self.dir
    }

    /// The name of the log's file.
    pub fn file_name(&self) -> (r: &String)
        ensures
            r@ == self.file_text(),
    {
        &self.file
    }
}

/// Sends every event to an [`EventLog`].
#[derive(Debug, PartialEq, Eq)]
pub struct LoggingObserver {
    log: EventLog,
}

impl LoggingObserver {
    /// The log.
    pub closed spec fn log_of(&self) -> EventLog {
        self.log
    }

    pub fn new(log: EventLog) -> (r: Self)
        ensures
            r.log_of() == log,
    {
        LoggingObserver { log }
    }

    /// The log.
    pub fn log(&self) -> (r: &EventLog)
        ensures
            *r == self.log_of(),
    {
        &self.log
    }
}

/// The bytes that announce a message of `n` bytes: `n` in groups of seven bits,
/// the lowest first, each but the last marked by its high bit.
pub open spec fn delimiter(n: nat) -> Seq<u8>
    decreases n,
{
    if n < 128 {
        seq![n as u8]
    } else {
        seq![(n % 128 + 128) as u8] + delimiter(n / 128)
    }
}

/// The number at the front of `bytes`, of at most `room` groups, and how many
/// bytes it is written in; `None` where none ends there, and where the last of
/// all groups would not fit in 64 bits.
pub open spec fn number_at(bytes: Seq<u8>, room: nat) -> Option<(nat, nat)>
    decreases room,
{
    if room == 0 || bytes.len() == 0 {
        None
    } else if bytes[0] < 128 {
        if room == 1 && bytes[0] > 1 {
            None
        } else {
            Some((bytes[0] as nat, 1))
        }
    } else {
        match number_at(bytes.skip(1), (room - 1) as nat) {
            Some((n, k)) => Some(((bytes[0] - 128 + 128 * n) as nat, k + 1)),
            None => None,
        }
    }
}

/// The length at the front of `bytes`, in the ten groups that 64 bits take, and
/// how many bytes it is written in.
pub open spec fn delimiter_at(bytes: Seq<u8>) -> Option<(nat, nat)> {
    number_at(bytes, 10)
}

/// A number is written in bytes that are there.
proof fn number_bounds(bytes: Seq<u8>, room: nat)
    ensures
        number_at(bytes, room) matches Some((_, k)) ==> 0 < k <= bytes.len(),
    decreases room,
{
    if room > 0 && bytes.len() > 0 {
        number_bounds(bytes.skip(1), (room - 1) as nat);
    }
}

/// One more than the greatest number of `room` groups, the last of all one bit
/// wide.
spec fn reach(room: nat) -> nat
    decreases room,
{
    if room <= 1 {
        2
    } else {
        128 * reach((room - 1) as nat)
    }
}

proof fn number_reads_back(n: nat, rest: Seq<u8>, room: nat)
    requires
        room > 0,
        n < reach(room),
    ensures
        number_at(delimiter(n) + rest, room) == Some((n, delimiter(n).len())),
    decreases room,
{
    let bytes = delimiter(n) + rest;
    if n < 128 {
        assert(bytes[0] == n as u8);
    } else {
        assert(room > 1);
        number_reads_back(n / 128, rest, (room - 1) as nat);
        assert(bytes[0] == (n % 128 + 128) as u8);
        assert(bytes.skip(1) =~= delimiter(n / 128) + rest);
    }
}

/// A length that was announced is read back, whatever stands behind it.
pub proof fn delimiter_reads_back(n: nat, rest: Seq<u8>)
    requires
        n <= u64::MAX,
    ensures
        delimiter_at(delimiter(n) + rest) == Some((n, delimiter(n).len())),
{
    reveal_with_fuel(reach, 10);
    number_reads_back(n, rest, 10);
}

/// A message behind the bytes that announce it.
pub open spec fn framed(payload: Seq<u8>) -> Seq<u8> {
    delimiter(payload.len()) + payload
}

/// The messages of a log, one behind the other.
pub open spec fn log_of(payloads: Seq<Seq<u8>>) -> Seq<u8>
    decreases payloads.len(),
{
    if payloads.len() == 0 {
        seq![]
    } else {
        framed(payloads[0]) + log_of(payloads.skip(1))
    }
}

/// The messages that a log holds; `None` where it is not made of messages.
pub open spec fn messages_in(log: Seq<u8>) -> Option<Seq<Seq<u8>>>
    decreases log.len(),
{
    if log.len() == 0 {
        Some(seq![])
    } else {
        match delimiter_at(log) {
            Some((n, k)) => if 0 < k && k + n <= log.len() {
                match messages_in(log.skip((k + n) as int)) {
                    Some(l) => Some(seq![log.subrange(k as int, (k + n) as int)] + l),
                    None => None,
                }
            } else {
                None
            },
            None => None,
        }
    }
}

/// The bytes to append for one message.
pub fn frame(payload: &Vec<u8>) -> (r: Vec<u8>)
    ensures
        r@ == framed(payload@),
{
    let mut out = write_delimiter(payload.len());
    let mut i: usize = 0;
    let ghost head = out@;
    while i < payload.len()
        invariant
            i <= payload@.len(),
            out@ == head + payload@.take(i as int),
        decreases payload@.len() - i,
    {
        out.push(payload[i]);
        i = i + 1;
        assert(out@ =~= head + payload@.take(i as int));
    }
    assert(payload@.take(i as int) =~= payload@);
    out
}

/// Part of a list of bytes.
fn part(bytes: &Vec<u8>, from: usize, to: usize) -> (r: Vec<u8>)
    requires
        from <= to <= bytes@.len(),
    ensures
        r@ == bytes@.subrange(from as int, to as int),
{
    let mut out: Vec<u8> = Vec::new();
    let mut i: usize = from;
    while i < to
        invariant
            from <= i <= to <= bytes@.len(),
            out@ == bytes@.subrange(from as int, i as int),
        decreases to - i,
    {
        out.push(bytes[i]);
        i = i + 1;
        assert(out@ =~= bytes@.subrange(from as int, i as int));
    }
    out
}

/// The messages that a log holds, in order; `None` where it is not made of
/// messages. What was appended is read back.
pub fn read_frames(log: &Vec<u8>) -> (r: Option<Vec<Vec<u8>>>)
    ensures
        r.deep_view() == messages_in(log@),
        forall|payloads: Seq<Seq<u8>>| log@ == #[trigger] log_of(payloads) ==> r.deep_view()
            == Some(payloads),
{
    let mut out: Vec<Vec<u8>> = Vec::new();
    let mut pos: usize = 0;
    proof {
        assert(log@.skip(0) =~= log@);
        assert forall|payloads: Seq<Seq<u8>>| log@ == #[trigger] log_of(
            payloads,
        ) implies read_so_far(payloads, out.deep_view(), log@.skip(0)) by {
            assert(payloads.take(0) =~= out.deep_view());
            assert(payloads.skip(0) =~= payloads);
        }
        if messages_in(log@) is Some {
            assert(out.deep_view() + messages_in(log@)->0 =~= messages_in(log@)->0);
        }
    }
    while pos < log.len()
        invariant
            pos <= log@.len(),
            messages_in(log@) == (match messages_in(log@.skip(pos as int)) {
                Some(l) => Some(out.deep_view() + l),
                None => None,
            }),
            forall|payloads: Seq<Seq<u8>>| log@ == #[trigger] log_of(payloads) ==> read_so_far(
                payloads,
                out.deep_view(),
                log@.skip(pos as int),
            ),
        decreases log@.len() - pos,
    {
        let ghost tail = log@.skip(pos as int);
        let ghost before = out.deep_view();
        let read = read_delimiter(log, pos);
        proof {
            number_bounds(tail, 10);
            // A tail that a log leaves begins with the delimiter of its next message.
            assert forall|payloads: Seq<Seq<u8>>| log@ == #[trigger] log_of(payloads) implies ({
                let next = payloads[before.len() as int];
                &&& before.len() < payloads.len()
                &&& tail == framed(next) + log_of(payloads.skip(before.len() as int).skip(1))
                &&& delimiter_at(tail) == Some((next.len(), delimiter(next.len()).len()))
            }) by {
                assert(read_so_far(payloads, before, tail));
                let left = payloads.skip(before.len() as int);
                let rest = log_of(left.skip(1));
                assert(left[0] == payloads[before.len() as int]);
                assert(tail.len() == delimiter(left[0].len()).len() + left[0].len() + rest.len());
                assert(tail =~= delimiter(left[0].len()) + (left[0] + rest));
                delimiter_reads_back(left[0].len(), left[0] + rest);
            }
        }
        match read {
            Some((n, left)) => {
                let head: usize = log.len() - left;
                if n > left {
                    proof {
                        assert forall|payloads: Seq<Seq<u8>>| log@ != #[trigger] log_of(
                            payloads,
                        ) by {}
                    }
                    return None;
                }
                let next = part(log, head, head + n);
                out.push(next);
                proof {
                    let k = head - pos;
                    assert(tail.skip(k + n) =~= log@.skip(head + n));
                    assert(tail.subrange(k, k + n) =~= next@);
                    assert(next.deep_view() =~= next@);
                    assert(out.deep_view() =~= before.push(next@));
                    if let Some(l) = messages_in(log@.skip(head + n)) {
                        assert(before + (seq![next@] + l) =~= out.deep_view() + l);
                    }
                    assert forall|payloads: Seq<Seq<u8>>| log@ == #[trigger] log_of(
                        payloads,
                    ) implies read_so_far(payloads, out.deep_view(), log@.skip(head + n)) by {
                        assert(read_so_far(payloads, before, tail));
                        let left = payloads.skip(before.len() as int);
                        let rest = log_of(left.skip(1));
                        assert(left.skip(1) =~= payloads.skip(before.len() as int + 1));
                        assert(tail.subrange(k, k + n) =~= left[0]);
                        assert(tail.skip(k + n) =~= rest);
                        assert(payloads.take(before.len() as int + 1) =~= payloads.take(
                            before.len() as int,
                        ).push(left[0]));
                    }
                }
                pos = head + n;
            },
            None => {
                proof {
                    assert forall|payloads: Seq<Seq<u8>>| log@ != #[trigger] log_of(payloads) by {}
                }
                return None;
            },
        }
    }
    proof {
        assert(log@.skip(pos as int) =~= seq![]);
        assert(out.deep_view() + seq![] =~= out.deep_view());
        assert forall|payloads: Seq<Seq<u8>>| log@ == #[trigger] log_of(
            payloads,
        ) implies out.deep_view() == payloads by {
            assert(read_so_far(payloads, out.deep_view(), log@.skip(pos as int)));
            let left = payloads.skip(out.deep_view().len() as int);
            if left.len() > 0 {
                delimiter_is_not_empty(left[0].len());
                assert(log_of(left) == framed(left[0]) + log_of(left.skip(1)));
                assert(log_of(left).len() > 0);
                assert(log@.skip(pos as int).len() == 0);
                assert(false);
            }
            assert(left.len() == payloads.len() - out.deep_view().len());
            assert(payloads.take(payloads.len() as int) =~= payloads);
        }
    }
    Some(out)
}

/// Have the first messages of `payloads` been read, and are the others left?
spec fn read_so_far(payloads: Seq<Seq<u8>>, read: Seq<Seq<u8>>, left: Seq<u8>) -> bool {
    &&& read.len() <= payloads.len()
    &&& read == payloads.take(read.len() as int)
    &&& left == log_of(payloads.skip(read.len() as int))
}

proof fn delimiter_is_not_empty(n: nat)
    ensures
        delimiter(n).len() > 0,
{
}

// ─── durations ──────────────────────────────────────────────────────────

/// A gap as a duration: 0 where it is unknown or negative.
pub open spec fn gap_as_duration(gap: Option<i64>) -> i64 {
    match gap {
        Some(ms) => if ms > 0 {
            ms
        } else {
            0
        },
        None => 0,
    }
}

/// Milliseconds between two RFC 3339 timestamps (`0` if either is
/// empty/unparsable or `end < start`).
pub open spec fn duration_between(start: Seq<char>, end: Seq<char>) -> i64 {
    gap_as_duration(rfc3339_gap_ms(start, end))
}

/// A gap as a duration: 0 where it is unknown or negative.
pub fn clamp_gap(gap: Option<i64>) -> (r: i64)
    ensures
        r == gap_as_duration(gap),
{
    match gap {
        Some(ms) => {
            if ms > 0 {
                ms
            } else {
                0
            }
        },
        None => 0,
    }
}

/// Milliseconds between two RFC 3339 timestamps (`0` if either is
/// empty/unparsable or `end < start`).
pub fn duration_ms(start: &str, end: &str) -> (r: i64)
    ensures
        r == duration_between(start@, end@),
        r >= 0,
        start@.len() == 0 || end@.len() == 0 ==> r == 0,
        start@ == end@ ==> r == 0,
{
    clamp_gap(gap_ms(start, end))
}

// ─── the projection ─────────────────────────────────────────────────────

/// Does the wire number stand for a state that ends an item?
pub open spec fn ends_item(state: i32) -> bool {
    let s = WaveItemState::of_number(state);
    s is Published || s is Skipped || s is Failed
}

/// Does the wire number stand for a state that ends an item?
pub fn is_terminal(state: i32) -> (r: bool)
    ensures
        r == ends_item(state),
{
    match WaveItemState::from_number(state) {
        WaveItemState::Published => true,
        WaveItemState::Skipped => true,
        WaveItemState::Failed => true,
        _ => false,
    }
}

/// The time of the first event of `key`; empty where there is none.
pub open spec fn first_at(events: Seq<WaveEventView>, key: Seq<char>) -> Seq<char>
    decreases events.len(),
{
    if events.len() == 0 {
        seq![]
    } else if events[0].item_key == key {
        events[0].at
    } else {
        first_at(events.skip(1), key)
    }
}

/// The time of the last event that ends `key`; empty where there is none.
pub open spec fn last_end_at(events: Seq<WaveEventView>, key: Seq<char>) -> Seq<char>
    decreases events.len(),
{
    if events.len() == 0 {
        seq![]
    } else if events.last().item_key == key && ends_item(events.last().to_state) {
        events.last().at
    } else {
        last_end_at(events.drop_last(), key)
    }
}

/// The span of one item: from its first event to the last one that ends it.
pub open spec fn span_of(item: WaveItemView, events: Seq<WaveEventView>) -> BumpSpanView {
    let key = cascade::item_key(item);
    let started_at = first_at(events, key);
    let ended_at = last_end_at(events, key);
    BumpSpanView {
        item_key: key,
        repo: item.repo,
        tier: item.tier,
        final_state: item.state,
        started_at,
        ended_at,
        duration_ms: duration_between(started_at, ended_at),
        change_url: match item.change {
            Some(c) => c.url,
            None => seq![],
        },
        published_version: item.published_version,
    }
}

/// Spans are listed by tier, then by start.
impl Ranked for pb::BumpSpan {
    open spec fn before(a: BumpSpanView, b: BumpSpanView) -> bool {
        a.tier < b.tier || a.tier == b.tier && text::text_lt(a.started_at, b.started_at)
    }

    proof fn before_is_asymmetric(a: BumpSpanView, b: BumpSpanView) {
        if Self::before(a, b) && Self::before(b, a) {
            text::text_lt_transitive(a.started_at, b.started_at, a.started_at);
            text::text_lt_irreflexive(a.started_at);
        }
    }

    proof fn not_before_is_transitive(a: BumpSpanView, b: BumpSpanView, c: BumpSpanView) {
        text::text_lt_total(a.started_at, b.started_at);
        text::text_lt_total(b.started_at, c.started_at);
        text::text_lt_irreflexive(a.started_at);
        if Self::before(c, a) {
            if text::text_lt(a.started_at, b.started_at) && text::text_lt(
                b.started_at,
                c.started_at,
            ) {
                text::text_lt_transitive(a.started_at, b.started_at, c.started_at);
            }
            if text::text_lt(a.started_at, c.started_at) && text::text_lt(
                c.started_at,
                a.started_at,
            ) {
                text::text_lt_transitive(a.started_at, c.started_at, a.started_at);
            }
        }
    }

    fn precedes(&self, other: &Self) -> (r: bool) {
        self.tier < other.tier || self.tier == other.tier && text_before(
            self.started_at.as_str(),
            other.started_at.as_str(),
        )
    }
}

/// The earliest start among the spans that have one.
pub open spec fn earliest(spans: Seq<BumpSpanView>) -> Option<Seq<char>>
    decreases spans.len(),
{
    if spans.len() == 0 {
        None
    } else {
        let t = spans.last().started_at;
        match earliest(spans.drop_last()) {
            Some(e) => if t.len() > 0 && text::text_lt(t, e) {
                Some(t)
            } else {
                Some(e)
            },
            None => if t.len() > 0 {
                Some(t)
            } else {
                None
            },
        }
    }
}

/// A wave and its events as a timeline: one span per item, by tier then start;
/// the wave starts with its first span (with its creation where none has
/// started), and ends when it is completed.
pub open spec fn projected(wave: WaveView, events: Seq<WaveEventView>) -> WaveTraceView {
    let spans = sort::sorted::<pb::BumpSpan>(
        wave.items.map_values(|item: WaveItemView| span_of(item, events)),
    );
    let started_at = match earliest(spans) {
        Some(t) => t,
        None => wave.created_at,
    };
    WaveTraceView {
        wave_id: wave.id,
        root_module: wave.root_module,
        target_version: wave.target_version,
        state: wave.state,
        started_at,
        ended_at: wave.completed_at,
        duration_ms: duration_between(started_at, wave.completed_at),
        spans,
    }
}

/// The time of the first event of `key`.
fn find_first_at(events: &Vec<pb::WaveEvent>, key: &String) -> (r: String)
    ensures
        r@ == first_at(events.deep_view(), key@),
{
    let ghost ev = events.deep_view();
    let mut i: usize = 0;
    assert(ev.skip(0) =~= ev);
    while i < events.len()
        invariant
            ev == events.deep_view(),
            i <= events@.len() == ev.len(),
            first_at(ev, key@) == first_at(ev.skip(i as int), key@),
        decreases events@.len() - i,
    {
        assert(ev.skip(i as int)[0] == events@[i as int].deep_view());
        if events[i].item_key == *key {
            return events[i].at.clone();
        }
        assert(ev.skip(i as int).skip(1) =~= ev.skip(i + 1));
        i = i + 1;
    }
    let none = String::new();
    assert(none@ =~= seq![]);
    none
}

/// The time of the last event that ends `key`.
fn find_last_end_at(events: &Vec<pb::WaveEvent>, key: &String) -> (r: String)
    ensures
        r@ == last_end_at(events.deep_view(), key@),
{
    let ghost ev = events.deep_view();
    let mut i: usize = events.len();
    assert(ev.take(ev.len() as int) =~= ev);
    while i > 0
        invariant
            ev == events.deep_view(),
            i <= events@.len() == ev.len(),
            last_end_at(ev, key@) == last_end_at(ev.take(i as int), key@),
        decreases i,
    {
        i = i - 1;
        assert(ev.take(i + 1).drop_last() =~= ev.take(i as int));
        assert(ev.take(i + 1).last() == events@[i as int].deep_view());
        if events[i].item_key == *key && is_terminal(events[i].to_state) {
            return events[i].at.clone();
        }
    }
    let none = String::new();
    assert(none@ =~= seq![]);
    none
}

/// The span of one item.
pub fn span(item: &pb::WaveItem, events: &Vec<pb::WaveEvent>) -> (r: pb::BumpSpan)
    ensures
        r.deep_view() == span_of(item.deep_view(), events.deep_view()),
{
    let key = match &item.repo {
        Some(r) => pb_repo_key(r),
        None => String::new(),
    };
    assert(key@ =~= cascade::item_key(item.deep_view()));
    let started_at = find_first_at(events, &key);
    let ended_at = find_last_end_at(events, &key);
    let duration = duration_ms(started_at.as_str(), ended_at.as_str());
    let repo = match &item.repo {
        Some(r) => Some(r.clone()),
        None => None,
    };
    let change_url = match &item.change {
        Some(c) => c.url.clone(),
        None => String::new(),
    };
    let s = pb::BumpSpan {
        item_key: key,
        repo,
        tier: item.tier,
        final_state: item.state,
        started_at,
        ended_at,
        duration_ms: duration,
        change_url,
        published_version: item.published_version.clone(),
    };
    assert(s.deep_view().change_url =~= span_of(item.deep_view(), events.deep_view()).change_url);
    s
}

/// The earliest start among the spans that have one.
fn find_earliest(spans: &Vec<pb::BumpSpan>) -> (r: Option<String>)
    ensures
        r.deep_view() == earliest(spans.deep_view()),
{
    let ghost sv = spans.deep_view();
    let mut best: Option<String> = None;
    let mut i: usize = 0;
    assert(sv.take(0) =~= seq![]);
    while i < spans.len()
        invariant
            sv == spans.deep_view(),
            i <= spans@.len() == sv.len(),
            best.deep_view() == earliest(sv.take(i as int)),
        decreases spans@.len() - i,
    {
        assert(sv.take(i + 1).drop_last() =~= sv.take(i as int));
        assert(sv.take(i + 1).last() == spans@[i as int].deep_view());
        let t = &spans[i].started_at;
        if !t.is_empty() {
            let better = match &best {
                Some(e) => text_before(t.as_str(), e.as_str()),
                None => true,
            };
            if better {
                best = Some(t.clone());
            }
        }
        i = i + 1;
    }
    assert(sv.take(sv.len() as int) =~= sv);
    best
}

/// Project a wave + its event log into a [`pb::WaveTrace`] — one span per item,
/// ordered by tier then start. Pure + idempotent.
pub fn project(wave: &pb::Wave, events: &Vec<pb::WaveEvent>) -> (r: pb::WaveTrace)
    ensures
        r.deep_view() == projected(wave.deep_view(), events.deep_view()),
{
    let ghost wv = wave.deep_view();
    let ghost ev = events.deep_view();
    let mut spans: Vec<pb::BumpSpan> = Vec::new();
    let mut i: usize = 0;
    while i < wave.items.len()
        invariant
            wv == wave.deep_view(),
            ev == events.deep_view(),
            i <= wave.items@.len(),
            spans@.len() == i,
            forall|j: int|
                0 <= j < i ==> (#[trigger] spans@[j]).deep_view() == span_of(
                    wave.items@[j].deep_view(),
                    ev,
                ),
        decreases wave.items@.len() - i,
    {
        spans.push(span(&wave.items[i], events));
        i = i + 1;
    }
    assert(spans.deep_view() =~= wv.items.map_values(|item: WaveItemView| span_of(item, ev)));
    let spans = sort::sort(spans);
    let started_at = match find_earliest(&spans) {
        Some(t) => t,
        None => wave.created_at.clone(),
    };
    let ended_at = wave.completed_at.clone();
    let duration = duration_ms(started_at.as_str(), ended_at.as_str());
    pb::WaveTrace {
        wave_id: wave.id.clone(),
        root_module: wave.root_module.clone(),
        target_version: wave.target_version.clone(),
        state: wave.state,
        started_at,
        ended_at,
        duration_ms: duration,
        spans,
    }
}

/// A trace has one span per item, in order of tier, then of start, and no span
/// starts before the trace does.
pub proof fn trace_lists_every_item(wave: WaveView, events: Seq<WaveEventView>, i: int)
    ensures
        ({
            let all = wave.items.map_values(|item: WaveItemView| span_of(item, events));
            let t = projected(wave, events);
            &&& t.spans.to_multiset() == all.to_multiset()
            &&& t.spans.len() == wave.items.len()
            &&& sort::in_order::<pb::BumpSpan>(t.spans)
            &&& 0 <= i < t.spans.len() && t.spans[i].started_at.len() > 0 ==> !text::text_lt(
                t.spans[i].started_at,
                t.started_at,
            )
        }),
{
    let all = wave.items.map_values(|item: WaveItemView| span_of(item, events));
    sort::sorted_is_in_order::<pb::BumpSpan>(all);
    let spans = projected(wave, events).spans;
    if 0 <= i < spans.len() && spans[i].started_at.len() > 0 {
        earliest_is_least(spans, i);
    }
}

proof fn earliest_is_least(spans: Seq<BumpSpanView>, i: int)
    requires
        0 <= i < spans.len(),
        spans[i].started_at.len() > 0,
    ensures
        earliest(spans) matches Some(e) && !text::text_lt(spans[i].started_at, e),
    decreases spans.len(),
{
    let init = spans.drop_last();
    let t = spans.last().started_at;
    text::text_lt_irreflexive(t);
    if i < spans.len() - 1 {
        assert(init[i] == spans[i]);
        earliest_is_least(init, i);
        let e = earliest(init)->0;
        if t.len() > 0 && text::text_lt(t, e) && text::text_lt(spans[i].started_at, t) {
            text::text_lt_transitive(spans[i].started_at, t, e);
        }
    }
}

// ─── the chrono crate ───────────────────────────────────────────────────

/// The milliseconds from the first time to the second, where
/// `chrono::DateTime::parse_from_rfc3339` reads both.
pub uninterp spec fn rfc3339_gap_ms(start: Seq<char>, end: Seq<char>) -> Option<i64>;

/// `chrono::DateTime::parse_from_rfc3339` on both texts, and the difference in
/// milliseconds: the result is [`rfc3339_gap_ms`]. An empty text is no time, and
/// between a time and itself there is no gap.
#[verifier::external_body]
fn gap_ms(start: &str, end: &str) -> (r: Option<i64>)
    ensures
        r == rfc3339_gap_ms(start@, end@),
        start@.len() == 0 || end@.len() == 0 ==> r is None,
        start@ == end@ ==> r is None || r == Some(0i64),
{
    let start = chrono::DateTime::parse_from_rfc3339(start).ok()?;
    let end = chrono::DateTime::parse_from_rfc3339(end).ok()?;
    Some((end - start).num_milliseconds())
}

// ─── the prost crate ────────────────────────────────────────────────────

/// `prost::encode_length_delimiter`: the bytes are [`delimiter`].
#[verifier::external_body]
fn write_delimiter(n: usize) -> (r: Vec<u8>)
    ensures
        r@ == delimiter(n as nat),
{
    let mut out = Vec::new();
    prost::encode_length_delimiter(n, &mut out).expect("a vector grows");
    out
}

/// `prost::decode_length_delimiter`, on the bytes from `pos` on: the length that
/// [`delimiter_at`] finds there, if it is one that a `usize` can hold, and how
/// many bytes are left behind it.
#[verifier::external_body]
fn read_delimiter(bytes: &Vec<u8>, pos: usize) -> (r: Option<(usize, usize)>)
    requires
        pos <= bytes@.len(),
    ensures
        r == (match delimiter_at(bytes@.skip(pos as int)) {
            Some((n, k)) => if n <= usize::MAX {
                Some((n as usize, (bytes@.len() - pos - k) as usize))
            } else {
                None
            },
            None => None,
        }),
{
    let mut rest = &bytes[pos..];
    let n = prost::decode_length_delimiter(&mut rest).ok()?;
    Some((n, rest.len()))
}

// ─── what a trace says ──────────────────────────────────────────────────

/// Is the event at `i` the first one of `key`?
pub open spec fn is_first_of(events: Seq<WaveEventView>, key: Seq<char>, i: int) -> bool {
    &&& 0 <= i < events.len()
    &&& events[i].item_key == key
    &&& forall|j: int| 0 <= j < i ==> (#[trigger] events[j]).item_key != key
}

/// Does the event bring `key` to an end: to being published, skipped or failed?
pub open spec fn ends_key(e: WaveEventView, key: Seq<char>) -> bool {
    e.item_key == key && ({
        let s = WaveItemState::of_number(e.to_state);
        s is Published || s is Skipped || s is Failed
    })
}

/// Is the event at `i` the last one that brings `key` to an end?
pub open spec fn is_last_end_of(events: Seq<WaveEventView>, key: Seq<char>, i: int) -> bool {
    &&& 0 <= i < events.len()
    &&& ends_key(events[i], key)
    &&& forall|j: int| i < j < events.len() ==> !ends_key(#[trigger] events[j], key)
}

proof fn first_at_is(events: Seq<WaveEventView>, key: Seq<char>, i: int)
    ensures
        is_first_of(events, key, i) ==> first_at(events, key) == events[i].at,
        (forall|j: int| 0 <= j < events.len() ==> (#[trigger] events[j]).item_key != key)
            ==> first_at(events, key).len() == 0,
    decreases events.len(),
{
    if events.len() > 0 {
        if events[0].item_key == key {
            if is_first_of(events, key, i) && i > 0 {
                assert(events[0].item_key != key);
            }
        } else {
            let tail = events.skip(1);
            first_at_is(tail, key, i - 1);
            if is_first_of(events, key, i) {
                assert forall|j: int| 0 <= j < i - 1 implies (#[trigger] tail[j]).item_key
                    != key by {
                    assert(events[j + 1] == tail[j]);
                }
                assert(is_first_of(tail, key, i - 1));
            }
            if forall|j: int| 0 <= j < events.len() ==> (#[trigger] events[j]).item_key != key {
                assert forall|j: int| 0 <= j < tail.len() implies (#[trigger] tail[j]).item_key
                    != key by {
                    assert(events[j + 1] == tail[j]);
                }
            }
        }
    }
}

proof fn last_end_at_is(events: Seq<WaveEventView>, key: Seq<char>, i: int)
    ensures
        is_last_end_of(events, key, i) ==> last_end_at(events, key) == events[i].at,
        (forall|j: int| 0 <= j < events.len() ==> !ends_key(#[trigger] events[j], key))
            ==> last_end_at(events, key).len() == 0,
    decreases events.len(),
{
    if events.len() > 0 {
        let n = events.len() - 1;
        let init = events.drop_last();
        assert(events.last() == events[n]);
        if ends_key(events[n], key) {
            if is_last_end_of(events, key, i) && i < n {
                assert(!ends_key(events[n], key));
            }
        } else {
            last_end_at_is(init, key, i);
            if is_last_end_of(events, key, i) {
                assert forall|j: int| i < j < init.len() implies !ends_key(
                    #[trigger] init[j],
                    key,
                ) by {
                    assert(events[j] == init[j]);
                }
                assert(init[i] == events[i]);
                assert(is_last_end_of(init, key, i));
            }
            if forall|j: int| 0 <= j < events.len() ==> !ends_key(#[trigger] events[j], key) {
                assert forall|j: int| 0 <= j < init.len() implies !ends_key(
                    #[trigger] init[j],
                    key,
                ) by {
                    assert(events[j] == init[j]);
                }
            }
        }
    }
}

/// The span of an item: it starts with the item's first event and ends with the last
/// one that brings it to an end, each empty where there is none, and says of the item
/// where it stands.
pub proof fn span_runs_from_first_to_last_event(
    item: WaveItemView,
    events: Seq<WaveEventView>,
    key: Seq<char>,
    i: int,
)
    requires
        key == (match item.repo {
            Some(r) => r.key(),
            None => Seq::empty(),
        }),
    ensures
        ({
            let s = span_of(item, events);
            &&& s.item_key == key
            &&& s.repo == item.repo
            &&& s.tier == item.tier
            &&& s.final_state == item.state
            &&& s.published_version == item.published_version
            &&& s.change_url == (match item.change {
                Some(c) => c.url,
                None => Seq::empty(),
            })
            &&& is_first_of(events, key, i) ==> s.started_at == events[i].at
            &&& (forall|j: int| 0 <= j < events.len() ==> (#[trigger] events[j]).item_key != key)
                ==> s.started_at.len() == 0
            &&& is_last_end_of(events, key, i) ==> s.ended_at == events[i].at
            &&& (forall|j: int| 0 <= j < events.len() ==> !ends_key(#[trigger] events[j], key))
                ==> s.ended_at.len() == 0
            &&& s.duration_ms == (match rfc3339_gap_ms(s.started_at, s.ended_at) {
                Some(ms) => if ms > 0 {
                    ms
                } else {
                    0
                },
                None => 0,
            })
        }),
{
    first_at_is(events, key, i);
    last_end_at_is(events, key, i);
}

proof fn earliest_is_a_start(spans: Seq<BumpSpanView>)
    ensures
        earliest(spans) matches Some(e) ==> e.len() > 0 && exists|i: int|
            0 <= i < spans.len() && (#[trigger] spans[i]).started_at == e,
        earliest(spans) is None ==> forall|i: int|
            0 <= i < spans.len() ==> (#[trigger] spans[i]).started_at.len() == 0,
    decreases spans.len(),
{
    if spans.len() > 0 {
        let init = spans.drop_last();
        earliest_is_a_start(init);
        assert(spans[spans.len() - 1] == spans.last());
        if let Some(e) = earliest(init) {
            let i = choose|i: int| 0 <= i < init.len() && (#[trigger] init[i]).started_at == e;
            assert(spans[i].started_at == e);
        } else {
            assert forall|i: int| 0 <= i < init.len() implies (#[trigger] spans[i]).started_at.len()
                == 0 by {
                assert(init[i] == spans[i]);
            }
        }
    }
}

/// A trace says of its wave what the wave says; it starts with the earliest of its
/// spans that has started, or with the wave's creation where none has, and ends when
/// the wave is completed; and its spans stand by tier, then by start.
pub proof fn trace_spans_its_wave(
    wave: WaveView,
    events: Seq<WaveEventView>,
    i: int,
    j: int,
)
    ensures
        ({
            let t = projected(wave, events);
            &&& t.wave_id == wave.id
            &&& t.root_module == wave.root_module
            &&& t.target_version == wave.target_version
            &&& t.state == wave.state
            &&& t.ended_at == wave.completed_at
            &&& (forall|k: int|
                0 <= k < t.spans.len() ==> (#[trigger] t.spans[k]).started_at.len() == 0)
                ==> t.started_at == wave.created_at
            &&& (exists|k: int|
                0 <= k < t.spans.len() && (#[trigger] t.spans[k]).started_at.len() > 0)
                ==> exists|k: int|
                0 <= k < t.spans.len() && (#[trigger] t.spans[k]).started_at == t.started_at
            &&& 0 <= i < t.spans.len() && t.spans[i].started_at.len() > 0 ==> !text::text_lt(
                t.spans[i].started_at,
                t.started_at,
            )
            &&& t.duration_ms == (match rfc3339_gap_ms(t.started_at, wave.completed_at) {
                Some(ms) => if ms > 0 {
                    ms
                } else {
                    0
                },
                None => 0,
            })
            &&& 0 <= i < j < t.spans.len() ==> t.spans[i].tier <= t.spans[j].tier
            &&& 0 <= i < j < t.spans.len() && t.spans[i].tier == t.spans[j].tier
                ==> !text::text_lt(t.spans[j].started_at, t.spans[i].started_at)
        }),
{
    let t = projected(wave, events);
    trace_lists_every_item(wave, events, i);
    earliest_is_a_start(t.spans);
    if 0 <= i < j < t.spans.len() {
        assert(!pb::BumpSpan::before(t.spans[j], t.spans[i]));
    }
    if exists|k: int| 0 <= k < t.spans.len() && (#[trigger] t.spans[k]).started_at.len() > 0 {
        let k = choose|k: int|
            0 <= k < t.spans.len() && (#[trigger] t.spans[k]).started_at.len() > 0;
        earliest_is_least(t.spans, k);
    }
    if let Some(e) = earliest(t.spans) {
        let k = choose|k: int| 0 <= k < t.spans.len() && (#[trigger] t.spans[k]).started_at == e;
        assert(t.spans[k].started_at.len() > 0);
    }
}

/// A log is what was appended to it: a message more is its announced bytes more.
pub proof fn appending_goes_behind(payloads: Seq<Seq<u8>>, payload: Seq<u8>)
    ensures
        log_of(payloads.push(payload)) == log_of(payloads) + delimiter(payload.len()) + payload,
        log_of(seq![]) == Seq::<u8>::empty(),
    decreases payloads.len(),
{
    let all = payloads.push(payload);
    if payloads.len() == 0 {
        assert(all.skip(1) =~= payloads);
        assert(log_of(all) =~= log_of(payloads) + delimiter(payload.len()) + payload);
    } else {
        assert(all.skip(1) =~= payloads.skip(1).push(payload));
        appending_goes_behind(payloads.skip(1), payload);
        assert(log_of(all) =~= log_of(payloads) + delimiter(payload.len()) + payload);
    }
}

// ─── the bytes of a log ─────────────────────────────────────────────────

/// The number that the low seven bits of the bytes make, the lowest first.
pub open spec fn base_128(bytes: Seq<u8>) -> nat
    decreases bytes.len(),
{
    if bytes.len() == 0 {
        0
    } else {
        (bytes[0] as nat % 128) + 128 * base_128(bytes.skip(1))
    }
}

/// Is there a number in the first `k` bytes: does each but the last of them have its
/// high bit set, and the last not?
pub open spec fn is_number(bytes: Seq<u8>, k: nat) -> bool {
    &&& 0 < k <= bytes.len()
    &&& bytes[k - 1] < 128
    &&& forall|i: int| 0 <= i < k - 1 ==> #[trigger] bytes[i] >= 128
}

/// The bytes that announce a length are that number in groups of seven bits, the lowest
/// first, without an empty group at its end.
pub proof fn lengths_are_announced(n: nat)
    ensures
        is_number(delimiter(n), delimiter(n).len()),
        base_128(delimiter(n)) == n,
        delimiter(n).len() > 1 ==> delimiter(n).last() > 0,
    decreases n,
{
    let d = delimiter(n);
    if n < 128 {
        assert(d.skip(1) =~= seq![]);
        assert(base_128(d.skip(1)) == 0);
    } else {
        let rest = delimiter(n / 128);
        lengths_are_announced(n / 128);
        assert(d.skip(1) =~= rest);
        assert(d[0] == (n % 128 + 128) as u8);
        assert forall|i: int| 0 <= i < d.len() - 1 implies #[trigger] d[i] >= 128 by {
            if i > 0 {
                assert(d[i] == rest[i - 1]);
            }
        }
        assert(d.last() == rest.last());
        assert(d[d.len() - 1] == rest[rest.len() - 1]);
    }
}

proof fn number_is(bytes: Seq<u8>, room: nat, k: nat)
    ensures
        is_number(bytes, k) && (k < room || k == room && bytes[k - 1] <= 1) ==> number_at(
            bytes,
            room,
        ) == Some((base_128(bytes.take(k as int)), k)),
        is_number(bytes, k) && (k > room || k == room && bytes[k - 1] > 1) ==> number_at(
            bytes,
            room,
        ) is None,
        (forall|i: int| 0 <= i < bytes.len() ==> #[trigger] bytes[i] >= 128) ==> number_at(
            bytes,
            room,
        ) is None,
    decreases room,
{
    if room > 0 && bytes.len() > 0 {
        let tail = bytes.skip(1);
        if bytes[0] < 128 {
            if is_number(bytes, k) {
                if k > 1 {
                    assert(bytes[0] >= 128);
                }
                let one = bytes.take(1);
                assert(one.skip(1) =~= seq![]);
                assert(base_128(one.skip(1)) == 0);
                assert(base_128(one) == bytes[0]);
            }
            if forall|i: int| 0 <= i < bytes.len() ==> #[trigger] bytes[i] >= 128 {
                assert(bytes[0] >= 128);
            }
        } else {
            let j = (k - 1) as nat;
            number_is(tail, (room - 1) as nat, j);
            if is_number(bytes, k) {
                assert(k > 1);
                assert forall|i: int| 0 <= i < j - 1 implies #[trigger] tail[i] >= 128 by {
                    assert(bytes[i + 1] == tail[i]);
                }
                assert(tail[j - 1] == bytes[k - 1]);
                assert(bytes.take(k as int).skip(1) =~= tail.take(j as int));
            }
            if forall|i: int| 0 <= i < bytes.len() ==> #[trigger] bytes[i] >= 128 {
                assert forall|i: int| 0 <= i < tail.len() implies #[trigger] tail[i] >= 128 by {
                    assert(bytes[i + 1] == tail[i]);
                }
            }
        }
    }
}

/// A length is read in the groups that it is written in, of which there are ten at
/// most, and the tenth holds one bit.
pub proof fn lengths_are_read(bytes: Seq<u8>, k: nat)
    ensures
        is_number(bytes, k) && (k < 10 || k == 10 && bytes[9] <= 1) ==> delimiter_at(bytes) == Some(
            (base_128(bytes.take(k as int)), k),
        ),
        is_number(bytes, k) && (k > 10 || k == 10 && bytes[9] > 1) ==> delimiter_at(bytes) is None,
        (forall|i: int| 0 <= i < bytes.len() ==> #[trigger] bytes[i] >= 128) ==> delimiter_at(
            bytes,
        ) is None,
{
    number_is(bytes, 10, k);
}

/// A log is read message by message: what stands behind its messages is read on its
/// own, and where that is no log, nor is the whole.
pub proof fn reading_goes_on(payloads: Seq<Seq<u8>>, rest: Seq<u8>)
    requires
        forall|i: int| 0 <= i < payloads.len() ==> (#[trigger] payloads[i]).len() <= u64::MAX,
    ensures
        messages_in(rest) matches Some(l) ==> messages_in(log_of(payloads) + rest) == Some(
            payloads + l,
        ),
        messages_in(rest) is None ==> messages_in(log_of(payloads) + rest) is None,
    decreases payloads.len(),
{
    let log = log_of(payloads) + rest;
    if payloads.len() == 0 {
        assert(log =~= rest);
        if let Some(l) = messages_in(rest) {
            assert(payloads + l =~= l);
        }
    } else {
        let p = payloads[0];
        let tail = payloads.skip(1);
        assert forall|i: int| 0 <= i < tail.len() implies (#[trigger] tail[i]).len()
            <= u64::MAX by {
            assert(tail[i] == payloads[i + 1]);
        }
        reading_goes_on(tail, rest);
        let behind = p + (log_of(tail) + rest);
        assert(log =~= delimiter(p.len()) + behind);
        delimiter_reads_back(p.len(), behind);
        lengths_are_announced(p.len());
        let k = delimiter(p.len()).len();
        assert(log.skip((k + p.len()) as int) =~= log_of(tail) + rest);
        assert(log.subrange(k as int, (k + p.len()) as int) =~= p);
        if let Some(l) = messages_in(rest) {
            assert(seq![p] + (tail + l) =~= payloads + l);
        }
    }
}

/// A log that stops within a message, or within the bytes that announce one, is none.
pub proof fn broken_logs_are_refused(log: Seq<u8>)
    requires
        log.len() > 0,
        delimiter_at(log) matches Some((n, k)) ==> k + n > log.len(),
    ensures
        messages_in(log) is None,
{
}

} // verus!
