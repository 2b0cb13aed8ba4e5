//! Text output.
use wave::discover::Candidate;
use wave::edge::{BumpDecision, EdgeKind, VersionConstraint};
use wave::forge::RepoRef;
use wave::graph::{PlanItem, WavePlan};
use wave::pb;
use wave::render::{
    fmt_ms, item_state_name, render_discovery, render_plan, render_trace, render_wave,
    render_wave_list, wave_state_name,
};

#[test]
fn renders_wave_states_and_counts() {
    let wave = pb::Wave {
        id: "wave-x".into(),
        root_module: "@s/modules".into(),
        target_version: "0.1.1".into(),
        state: pb::WaveState::Merging as i32,
        items: vec![
            pb::WaveItem {
                repo: Some(pb::RepoRef {
                    owner: "studio".into(),
                    name: "foundation".into(),
                    ..Default::default()
                }),
                tier: 1,
                state: pb::WaveItemState::Published as i32,
                published_version: "0.1.1".into(),
                ..Default::default()
            },
            pb::WaveItem {
                repo: Some(pb::RepoRef {
                    owner: "studio".into(),
                    name: "web".into(),
                    ..Default::default()
                }),
                tier: 2,
                state: pb::WaveItemState::CiRunning as i32,
                ..Default::default()
            },
        ],
        ..Default::default()
    };
    let out = render_wave(&wave);
    assert!(out.contains("wave-x [MERGING]"));
    assert!(out.contains("studio/foundation"));
    assert!(out.contains("PUBLISHED"));
    assert!(out.contains("published=0.1.1"));
    assert!(out.contains("CI_RUNNING"));

    let list = render_wave_list(&vec![wave.clone()]);
    assert!(list.contains("wave-x"));
    assert!(list.contains("(1/2 done)"));
}

#[test]
fn renders_trace_waterfall_with_tier_indentation() {
    let trace = pb::WaveTrace {
        wave_id: "wave-x".into(),
        root_module: "@s/modules".into(),
        target_version: "0.1.1".into(),
        state: pb::WaveState::Completed as i32,
        duration_ms: 9000,
        spans: vec![
            pb::BumpSpan {
                repo: Some(pb::RepoRef {
                    owner: "studio".into(),
                    name: "foundation".into(),
                    ..Default::default()
                }),
                tier: 1,
                final_state: pb::WaveItemState::Published as i32,
                duration_ms: 3000,
                published_version: "0.1.1".into(),
                ..Default::default()
            },
            pb::BumpSpan {
                repo: Some(pb::RepoRef {
                    owner: "studio".into(),
                    name: "web".into(),
                    ..Default::default()
                }),
                tier: 2,
                final_state: pb::WaveItemState::Published as i32,
                duration_ms: 4000,
                ..Default::default()
            },
        ],
        ..Default::default()
    };
    let out = render_trace(&trace);
    assert!(out.contains("trace wave-x [COMPLETED]"));
    assert!(out.contains("(9.0s)"));
    // tier-1 indented 2 spaces, tier-2 indented 4 — the cascade depth shows.
    assert!(out.contains("\n  studio/foundation"));
    assert!(out.contains("\n    studio/web"));
    assert!(out.contains("3.0s"));
    assert!(out.contains("v0.1.1"));
}

fn repo(name: &str) -> RepoRef {
    RepoRef { forge: 2, host: "h".into(), owner: "studio".into(), name: name.into() }
}

fn plan_item(name: &str, decision: Option<BumpDecision>) -> PlanItem {
    PlanItem {
        repo: repo(name),
        published: None,
        tier: 1,
        upstream_modules: vec!["a".into(), "b".into()],
        manifest_path: "package.json".into(),
        decision,
    }
}

#[test]
fn plans_are_written_line_by_line() {
    let plan = WavePlan {
        root_module: "@s/modules".into(),
        root_repo: Some(repo("modules")),
        target_version: "0.1.1".into(),
        items: vec![
            plan_item("x", Some(BumpDecision::NeedsBump)),
            plan_item("y", Some(BumpDecision::Conflict("pinned 2 > \"1\"".into()))),
            plan_item("z", Some(BumpDecision::AlreadySatisfied)),
            plan_item("a-repo-with-a-very-long-name-indeed", None),
        ],
        cycle: vec!["p".into(), "q".into()],
    };
    assert_eq!(
        render_plan(&plan),
        "wave plan: @s/modules → 0.1.1\n  root: studio/modules\n\
         \x20 tier 1 studio/x                       [NeedsBump]  deps: a, b\n\
         \x20 tier 1 studio/y                       [Conflict(\"pinned 2 > \\\"1\\\"\")]  deps: a, b\n\
         \x20 tier 1 studio/z                       [AlreadySatisfied]  deps: a, b\n\
         \x20 tier 1 studio/a-repo-with-a-very-long-name-indeed  deps: a, b\n\
         \x20 ⚠ cycle (unordered): p, q\n"
    );
    let empty = WavePlan {
        root_module: "m".into(),
        root_repo: None,
        target_version: "1".into(),
        items: Vec::new(),
        cycle: Vec::new(),
    };
    assert_eq!(render_plan(&empty), "wave plan: m → 1\n  (no affected consumers)\n");
}

#[test]
fn waves_are_written_line_by_line() {
    let wave = pb::Wave {
        id: "w".into(),
        root_module: "m".into(),
        target_version: "1".into(),
        items: vec![pb::WaveItem {
            tier: 12,
            state: pb::WaveItemState::Failed as i32,
            change: Some(pb::ChangeRef { url: "u".into(), ..Default::default() }),
            error: "e".into(),
            ..Default::default()
        }],
        cycle: vec!["k".into()],
        ..Default::default()
    };
    assert_eq!(
        render_wave(&wave),
        format!("wave w [UNKNOWN]  m → 1\n  tier 12 {:<30} FAILED       u  err: e\n  ⚠ cycle: k\n", "")
    );
    assert_eq!(render_wave_list(&Vec::new()), "no waves\n");
    assert_eq!(
        render_wave_list(&vec![wave]),
        format!("{:<42} [{:<9}] m → 1  (0/1 done)\n", "w", "UNKNOWN")
    );
}

#[test]
fn traces_show_what_is_in_flight() {
    let trace = pb::WaveTrace {
        wave_id: "w".into(),
        root_module: "m".into(),
        target_version: "1".into(),
        spans: vec![pb::BumpSpan { change_url: "u".into(), ..Default::default() }],
        ..Default::default()
    };
    assert_eq!(
        render_trace(&trace),
        format!("trace w [UNKNOWN]  m → 1  (in flight)\n  {:<26} {:<11} {:>7}  u\n", "", "UNKNOWN", "…")
    );
}

#[test]
fn milliseconds_are_readable() {
    assert_eq!(fmt_ms(840), "840ms");
    assert_eq!(fmt_ms(3250), "3.2s");
    assert_eq!(fmt_ms(1000), "1.0s");
    assert_eq!(fmt_ms(0), "0ms");
    assert_eq!(fmt_ms(-7), "-7ms");
    assert_eq!(fmt_ms(i64::MIN), format!("{}ms", i64::MIN));
    assert_eq!(fmt_ms(i64::MAX), format!("{}.{}s", i64::MAX / 1000, i64::MAX % 1000 / 100));
}

#[test]
fn states_have_names() {
    let items = [
        "UNKNOWN", "PENDING", "MR_OPEN", "CI_RUNNING", "CI_GREEN", "MERGING", "MERGED", "PUBLISHED",
        "SKIPPED", "FAILED", "UNKNOWN",
    ];
    for (n, name) in items.iter().enumerate() {
        assert_eq!(item_state_name(n as i32), *name);
    }
    let waves = ["UNKNOWN", "PROPOSED", "OPEN", "MERGING", "COMPLETED", "ABORTED", "UNKNOWN"];
    for (n, name) in waves.iter().enumerate() {
        assert_eq!(wave_state_name(n as i32), *name);
    }
}

fn candidate(name: &str, module: &str) -> Candidate {
    Candidate {
        repo: repo(name),
        module: module.into(),
        manifest_path: "package.json".into(),
        kind: EdgeKind::Npm,
        current: VersionConstraint::parse_npm("^1.0.0"),
        latest: "2.0.0".into(),
        decision: BumpDecision::NeedsBump,
    }
}

#[test]
fn discoveries_are_grouped_by_repo() {
    assert_eq!(render_discovery(&Vec::new()), "no external dependency updates found\n");
    let out = render_discovery(&vec![
        candidate("api", "zod"),
        candidate("api", "next"),
        candidate("web", "zod"),
    ]);
    assert_eq!(
        out,
        format!(
            "3 external update(s) across 2 repo(s):\n\nstudio/api  (package.json)\n  {:<34} ^1.0.0 → 2.0.0\n  {:<34} ^1.0.0 → 2.0.0\n\nstudio/web  (package.json)\n  {:<34} ^1.0.0 → 2.0.0\n",
            "zod", "next", "zod"
        )
    );
}
