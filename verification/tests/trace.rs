//! The event log and the timeline of a wave.
use prost::bytes::{Buf, BufMut};
use prost::encoding::{int32, skip_field, string, DecodeContext, WireType};
use prost::{DecodeError, Message};
use wave::pb::{self, WaveItemState as S};
use wave::sort::sort;
use wave::trace::{
    clamp_gap, duration_ms, frame, is_terminal, project, read_frames, span, EventLog,
    LoggingObserver,
};

fn repo(name: &str) -> pb::RepoRef {
    pb::RepoRef {
        owner: "studio".into(),
        name: name.into(),
        ..Default::default()
    }
}

/// A wave event as a log holds it.
#[derive(Debug, Clone, PartialEq, Default)]
struct Logged(pb::WaveEvent);

impl Message for Logged {
    fn encode_raw(&self, buf: &mut impl BufMut) {
        string::encode(1, &self.0.wave_id, buf);
        string::encode(2, &self.0.item_key, buf);
        int32::encode(3, &self.0.from_state, buf);
        int32::encode(4, &self.0.to_state, buf);
        string::encode(5, &self.0.detail, buf);
        string::encode(6, &self.0.at, buf);
    }

    fn merge_field(
        &mut self,
        tag: u32,
        wire_type: WireType,
        buf: &mut impl Buf,
        ctx: DecodeContext,
    ) -> Result<(), DecodeError> {
        match tag {
            1 => string::merge(wire_type, &mut self.0.wave_id, buf, ctx),
            2 => string::merge(wire_type, &mut self.0.item_key, buf, ctx),
            3 => int32::merge(wire_type, &mut self.0.from_state, buf, ctx),
            4 => int32::merge(wire_type, &mut self.0.to_state, buf, ctx),
            5 => string::merge(wire_type, &mut self.0.detail, buf, ctx),
            6 => string::merge(wire_type, &mut self.0.at, buf, ctx),
            _ => skip_field(wire_type, tag, buf, ctx),
        }
    }

    fn encoded_len(&self) -> usize {
        string::encoded_len(1, &self.0.wave_id)
            + string::encoded_len(2, &self.0.item_key)
            + int32::encoded_len(3, &self.0.from_state)
            + int32::encoded_len(4, &self.0.to_state)
            + string::encoded_len(5, &self.0.detail)
            + string::encoded_len(6, &self.0.at)
    }

    fn clear(&mut self) {
        *self = Logged::default();
    }
}

/// The events of a log, in order.
fn read_events(log: &Vec<u8>) -> Vec<pb::WaveEvent> {
    read_frames(log)
        .unwrap()
        .iter()
        .map(|payload| Logged::decode(payload.as_slice()).unwrap().0)
        .collect()
}

#[test]
fn event_log_roundtrips() {
    let log = EventLog::for_wave("/tmp/wave-events", "wave-1");
    assert_eq!(log.file_name(), "wave-1.log");
    let mut bytes: Vec<u8> = Vec::new();
    assert!(read_events(&bytes).is_empty());
    let mut written: Vec<pb::WaveEvent> = Vec::new();
    for (i, to) in [pb::WaveItemState::MrOpen, pb::WaveItemState::Merged].iter().enumerate() {
        let event = pb::WaveEvent {
            wave_id: "wave-1".into(),
            item_key: "k".into(),
            to_state: *to as i32,
            at: format!("2026-06-18T00:00:0{i}Z"),
            ..Default::default()
        };
        let payload = Logged(event.clone()).encode_to_vec();
        // The framing is that of a length-delimited message.
        assert_eq!(frame(&payload), Logged(event.clone()).encode_length_delimited_to_vec());
        bytes.extend(frame(&payload));
        written.push(event);
    }
    let events = read_events(&bytes);
    assert_eq!(events.len(), 2);
    assert_eq!(events[1].to_state, pb::WaveItemState::Merged as i32);
    assert_eq!(events, written);
}

#[test]
fn frames_of_any_length_are_read_back() {
    let mut bytes: Vec<u8> = Vec::new();
    let payloads: Vec<Vec<u8>> = vec![vec![1, 2, 3], Vec::new(), vec![7; 300]];
    for p in &payloads {
        bytes.extend(frame(p));
    }
    assert_eq!(read_frames(&bytes), Some(payloads));
}

#[test]
fn projects_spans_with_durations_in_tier_order() {
    let wave = pb::Wave {
        id: "wave-1".into(),
        root_module: "@s/modules".into(),
        target_version: "0.1.1".into(),
        state: pb::WaveState::Completed as i32,
        completed_at: "2026-06-18T00:00:10Z".into(),
        created_at: "2026-06-18T00:00:00Z".into(),
        items: vec![
            pb::WaveItem {
                repo: Some(repo("web")),
                tier: 2,
                state: pb::WaveItemState::Published as i32,
                ..Default::default()
            },
            pb::WaveItem {
                repo: Some(repo("foundation")),
                tier: 1,
                state: pb::WaveItemState::Published as i32,
                published_version: "0.1.1".into(),
                ..Default::default()
            },
        ],
        ..Default::default()
    };
    let key = |n: &str| pb::pb_repo_key(&repo(n));
    let events = vec![
        pb::WaveEvent {
            item_key: key("foundation"),
            to_state: pb::WaveItemState::MrOpen as i32,
            at: "2026-06-18T00:00:01Z".into(),
            ..Default::default()
        },
        pb::WaveEvent {
            item_key: key("foundation"),
            to_state: pb::WaveItemState::Published as i32,
            at: "2026-06-18T00:00:04Z".into(),
            ..Default::default()
        },
        pb::WaveEvent {
            item_key: key("web"),
            to_state: pb::WaveItemState::MrOpen as i32,
            at: "2026-06-18T00:00:05Z".into(),
            ..Default::default()
        },
        pb::WaveEvent {
            item_key: key("web"),
            to_state: pb::WaveItemState::Published as i32,
            at: "2026-06-18T00:00:09Z".into(),
            ..Default::default()
        },
    ];
    let trace = project(&wave, &events);
    // tier order: foundation (1) before web (2).
    assert_eq!(trace.spans[0].repo.as_ref().unwrap().name, "foundation");
    assert_eq!(trace.spans[1].repo.as_ref().unwrap().name, "web");
    // foundation span: 00:01 → 00:04 = 3000ms.
    assert_eq!(trace.spans[0].duration_ms, 3000);
    // web span: 00:05 → 00:09 = 4000ms.
    assert_eq!(trace.spans[1].duration_ms, 4000);
    // whole wave: first start 00:01 → completed 00:10 = 9000ms.
    assert_eq!(trace.duration_ms, 9000);
}

#[test]
fn frames_announce_their_length() {
    assert_eq!(frame(&vec![5, 6]), [2, 5, 6]);
    assert_eq!(frame(&vec![9; 300])[..2], [0xac, 0x02]);
    // A log that ends in the middle of a message is none.
    assert_eq!(read_frames(&vec![2, 5]), None);
    assert_eq!(read_frames(&vec![0x80]), None);
    // Nor is one whose length does not fit in 64 bits.
    let mut long: Vec<u8> = vec![0xff; 9];
    long.push(2);
    assert_eq!(read_frames(&long), None);
    assert_eq!(read_frames(&vec![0x81, 0x00, 7]), Some(vec![vec![7]]));
}

#[test]
fn a_log_is_named_after_its_wave() {
    let observer = LoggingObserver::new(EventLog::for_wave("/state", "w"));
    assert_eq!(observer.log().dir(), "/state");
    assert_eq!(observer.log().file_name(), "w.log");
}

#[test]
fn durations_are_never_negative() {
    let at = |s: u32| format!("2026-06-18T00:00:{s:02}Z");
    assert_eq!(duration_ms(&at(1), &at(4)), 3000);
    assert_eq!(duration_ms(&at(4), &at(1)), 0);
    assert_eq!(duration_ms(&at(4), &at(4)), 0);
    assert_eq!(duration_ms("", &at(4)), 0);
    assert_eq!(duration_ms(&at(1), "yesterday"), 0);
    assert_eq!(duration_ms("2026-06-18T00:00:00+02:00", "2026-06-17T22:00:00.250Z"), 250);
    assert_eq!(clamp_gap(Some(-5)), 0);
    assert_eq!(clamp_gap(Some(5)), 5);
    assert_eq!(clamp_gap(None), 0);
}

#[test]
fn a_span_runs_from_the_first_event_to_the_last_that_ends_it() {
    let item = pb::WaveItem {
        repo: Some(repo("web")),
        change: Some(pb::ChangeRef { url: "u".into(), ..Default::default() }),
        ..Default::default()
    };
    let key = pb::pb_repo_key(&repo("web"));
    let event = |to: S, at: &str| pb::WaveEvent {
        item_key: key.clone(),
        to_state: to as i32,
        at: at.into(),
        ..Default::default()
    };
    let events = vec![
        event(S::MrOpen, "2026-06-18T00:00:01Z"),
        event(S::Failed, "2026-06-18T00:00:02Z"),
        event(S::Skipped, "2026-06-18T00:00:03Z"),
        event(S::CiGreen, "2026-06-18T00:00:09Z"),
    ];
    let s = span(&item, &events);
    assert_eq!(s.started_at, "2026-06-18T00:00:01Z");
    assert_eq!(s.ended_at, "2026-06-18T00:00:03Z");
    assert_eq!(s.duration_ms, 2000);
    assert_eq!(s.change_url, "u");
    let none = span(&item, &Vec::new());
    assert_eq!((none.started_at.as_str(), none.duration_ms), ("", 0));
    assert!(is_terminal(S::Published as i32));
    assert!(!is_terminal(S::Merged as i32));
    assert!(!is_terminal(99));
}

#[test]
fn a_wave_without_events_starts_with_its_creation() {
    let wave = pb::Wave {
        created_at: "2026-06-18T00:00:00Z".into(),
        items: vec![pb::WaveItem::default()],
        ..Default::default()
    };
    let trace = project(&wave, &Vec::new());
    assert_eq!(trace.started_at, "2026-06-18T00:00:00Z");
    assert_eq!(trace.ended_at, "");
    assert_eq!(trace.duration_ms, 0);
    assert_eq!(trace.spans.len(), 1);
    assert_eq!(project(&wave, &Vec::new()), trace);
}

#[test]
fn sorting_is_stable() {
    let s = |tier: u32, at: &str, key: &str| pb::BumpSpan {
        tier,
        started_at: at.into(),
        item_key: key.into(),
        ..Default::default()
    };
    let sorted = sort(vec![s(2, "a", "1"), s(1, "b", "2"), s(1, "a", "3"), s(1, "b", "4")]);
    let keys: Vec<&str> = sorted.iter().map(|x| x.item_key.as_str()).collect();
    assert_eq!(keys, ["3", "2", "4", "1"]);
    assert_eq!(sort(sorted.clone()), sorted);
}
