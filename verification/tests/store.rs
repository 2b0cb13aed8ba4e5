//! The wave store.
use wave::pb;
use wave::store::Store;

fn wave(id: &str, state: pb::WaveState) -> pb::Wave {
    pb::Wave {
        id: id.into(),
        root_module: "@s/modules".into(),
        target_version: "0.1.1".into(),
        state: state as i32,
        ..Default::default()
    }
}

#[test]
fn upsert_roundtrips_and_replaces() {
    let mut store = Store::open(None);
    assert!(store.waves().is_empty());

    store.upsert(wave("wave-1", pb::WaveState::Open));

    // Reopen on what was stored → the wave persisted.
    let mut reopened = Store::open(Some(store.snapshot().clone()));
    assert_eq!(reopened.waves().len(), 1);
    assert_eq!(reopened.get("wave-1").unwrap().root_module, "@s/modules");

    // Upsert with the same id replaces (no duplicate row).
    reopened.upsert(wave("wave-1", pb::WaveState::Completed));
    let again = Store::open(Some(reopened.snapshot().clone()));
    assert_eq!(again.waves().len(), 1);
    assert_eq!(again.get("wave-1").unwrap().state, pb::WaveState::Completed as i32);
}

#[test]
fn other_waves_stay_and_the_schema_is_stamped() {
    let mut store = Store::open(Some(pb::WaveStore { schema_version: 9, waves: Vec::new() }));
    assert_eq!(store.snapshot().schema_version, 1);
    store.upsert(wave("a", pb::WaveState::Open));
    store.upsert(wave("b", pb::WaveState::Open));
    store.upsert(wave("a", pb::WaveState::Aborted));
    let ids: Vec<String> = store.waves().into_iter().map(|w| w.id).collect();
    assert_eq!(ids, ["a", "b"]);
    assert_eq!(store.get("b").unwrap().state, pb::WaveState::Open as i32);
    assert_eq!(store.get("c"), None);
}

#[test]
fn state_numbers_read_back() {
    for n in 0..10 {
        assert_eq!(pb::WaveItemState::from_number(n).to_number(), n);
        assert_eq!(pb::WaveItemState::from_number(n) as i32, n);
    }
    assert_eq!(pb::WaveItemState::from_number(10), pb::WaveItemState::Unspecified);
    for n in 0..6 {
        assert_eq!(pb::WaveState::from_number(n).to_number(), n);
        assert_eq!(pb::WaveState::from_number(n) as i32, n);
    }
    assert_eq!(pb::WaveState::from_number(-1), pb::WaveState::Unspecified);
}

#[test]
fn repos_and_changes_convert_both_ways() {
    let r = wave::forge::RepoRef {
        forge: 2,
        host: "h".into(),
        owner: "o".into(),
        name: "n".into(),
    };
    let stored = pb::to_pb_repo(&r);
    assert_eq!(pb::to_forge_repo(&stored), r);
    assert_eq!(pb::pb_repo_key(&stored), wave::repo_key(&r));
    assert_eq!(pb::pb_repo_slug(&stored), "o/n");
    assert_eq!(pb::pb_repo_slug(&pb::RepoRef { name: "n".into(), ..Default::default() }), "n");
    let c = wave::forge::ChangeRef { number: 3, url: "u".into(), branch: "b".into() };
    assert_eq!(pb::to_forge_change(&pb::to_pb_change(&c)), c);
}
