//! Driving a wave.
use std::cell::RefCell;
use std::collections::HashMap;
use std::sync::Mutex;

use wave::cascade::{begin, respond, Bump, ForgeReply, ForgeRequest, Next, RunError, Stage};
use wave::forge::{
    ChangeRef, ChangeState, CiStatus, FileBlob, ForgeKind, OpenedChange, PipelineStatus, RepoRef,
};
use wave::graph::{propose, repo_key, RepoNode};
use wave::pb::{self, to_pb_repo, WaveItemState as S};
use wave::provider::{GraphProvider, NpmProvider, ProviderChain};
use wave::runner::{
    finalize, is_resolved, materialize, materialize_at, next_action, slug, summarize, wave_id,
    wave_id_at, ItemAction, NullObserver, Progress, WaveObserver, WaveRunner,
};
use wave::targets::Targets;

fn repo(name: &str) -> RepoRef {
    RepoRef {
        forge: ForgeKind::Gitlab as i32,
        host: "gitlab.savvifi.com".into(),
        owner: "studio".into(),
        name: name.into(),
    }
}

#[test]
fn pending_waits_until_upstream_publishes() {
    let producer = pb::WaveItem {
        repo: Some(to_pb_repo(&repo("foundation"))),
        published_module: "@s/foundation".into(),
        state: pb::WaveItemState::Merged as i32, // not yet published
        ..Default::default()
    };
    let consumer = pb::WaveItem {
        repo: Some(to_pb_repo(&repo("web"))),
        upstream_modules: vec!["@s/foundation".into()],
        state: pb::WaveItemState::Pending as i32,
        ..Default::default()
    };
    let wave = pb::Wave {
        root_module: "@s/modules".into(),
        target_version: "0.1.1".into(),
        items: vec![producer, consumer.clone()],
        ..Default::default()
    };
    assert_eq!(next_action(&wave, &consumer), ItemAction::Wait);
}

#[test]
fn pending_opens_once_upstream_published() {
    let producer = pb::WaveItem {
        repo: Some(to_pb_repo(&repo("foundation"))),
        published_module: "@s/foundation".into(),
        state: pb::WaveItemState::Published as i32,
        published_version: "0.1.1".into(),
        ..Default::default()
    };
    let consumer = pb::WaveItem {
        repo: Some(to_pb_repo(&repo("web"))),
        upstream_modules: vec!["@s/foundation".into()],
        state: pb::WaveItemState::Pending as i32,
        ..Default::default()
    };
    let wave = pb::Wave {
        root_module: "@s/modules".into(),
        target_version: "0.1.1".into(),
        items: vec![producer, consumer.clone()],
        ..Default::default()
    };
    match next_action(&wave, &consumer) {
        ItemAction::Open(t) => assert_eq!(t.get("@s/foundation").map(String::as_str), Some("0.1.1")),
        other => panic!("expected Open, got {other:?}"),
    }
}

// ── mock forge: a fully in-memory cascade ───────────────────────────────

#[derive(Default)]
struct RepoSim {
    // path → content on the default branch.
    default_files: HashMap<String, String>,
    // (branch, path) → content.
    branch_files: HashMap<(String, String), String>,
    changes: Vec<MockChange>,
    // (old_version, new_version) applied to the repo's own manifest on merge,
    // simulating the release pipeline. None = an app that publishes nothing.
    release: Option<(String, String)>,
}

struct MockChange {
    number: u64,
    branch: String,
    auto_merge: bool,
    merged: bool,
}

struct MockForge {
    repos: RefCell<HashMap<String, RepoSim>>,
    allows_auto_merge: bool,
}

impl MockForge {
    fn new(allows_auto_merge: bool) -> Self {
        MockForge { repos: RefCell::new(HashMap::new()), allows_auto_merge }
    }

    fn seed(&self, name: &str, path: &str, content: &str, release: Option<(&str, &str)>) {
        let mut sim = RepoSim::default();
        sim.default_files.insert(path.into(), content.into());
        sim.release = release.map(|(a, b)| (a.to_string(), b.to_string()));
        self.repos.borrow_mut().insert(repo_key(&repo(name)), sim);
    }

    fn default_file(&self, name: &str, path: &str) -> String {
        self.repos.borrow()[&repo_key(&repo(name))].default_files[path].clone()
    }

    // Apply a branch's committed files to the default branch + run the
    // simulated release (bump the repo's own version).
    fn apply_merge(sim: &mut RepoSim, branch: &str) {
        let updates: Vec<(String, String)> = sim
            .branch_files
            .iter()
            .filter(|((b, _), _)| b == branch)
            .map(|((_, p), c)| (p.clone(), c.clone()))
            .collect();
        for (path, content) in updates {
            sim.default_files.insert(path, content);
        }
        if let Some((old, new)) = sim.release.clone() {
            for content in sim.default_files.values_mut() {
                *content = content.replace(
                    &format!("\"version\":\"{old}\""),
                    &format!("\"version\":\"{new}\""),
                );
            }
        }
    }

    fn answer(&self, request: ForgeRequest) -> ForgeReply {
        let mut repos = self.repos.borrow_mut();
        match request {
            ForgeRequest::DefaultBranch { .. } => ForgeReply::Branch("main".into()),
            ForgeRequest::ReadFile { repo, path, at } => {
                let sim = &repos[&repo_key(&repo)];
                let content = if at.is_empty() || at == "main" {
                    sim.default_files.get(&path).cloned()
                } else {
                    sim.branch_files.get(&(at, path)).cloned()
                };
                ForgeReply::File(
                    content.map(|content| FileBlob { content, blob_sha: "mock-sha".into() }),
                )
            }
            ForgeRequest::CreateBranch { repo, branch, .. } => {
                let sim = repos.get_mut(&repo_key(&repo)).unwrap();
                let seed: Vec<(String, String)> =
                    sim.default_files.iter().map(|(p, c)| (p.clone(), c.clone())).collect();
                for (p, c) in seed {
                    sim.branch_files.entry((branch.clone(), p)).or_insert(c);
                }
                ForgeReply::Done
            }
            ForgeRequest::CommitFile { repo, branch, path, content, .. } => {
                let sim = repos.get_mut(&repo_key(&repo)).unwrap();
                sim.branch_files.insert((branch, path), content);
                ForgeReply::Done
            }
            ForgeRequest::OpenChange { repo, branch, .. } => {
                let sim = repos.get_mut(&repo_key(&repo)).unwrap();
                let number = sim.changes.len() as u64 + 1;
                sim.changes.push(MockChange {
                    number,
                    branch: branch.clone(),
                    auto_merge: false,
                    merged: false,
                });
                ForgeReply::Opened(OpenedChange {
                    change: ChangeRef {
                        number,
                        url: format!("https://forge/{}/-/merge_requests/{number}", repo.name),
                        branch,
                    },
                    already_existed: false,
                })
            }
            ForgeRequest::EnableAutoMerge { repo, change } => {
                if !self.allows_auto_merge {
                    return ForgeReply::Failed("not allowed".into());
                }
                let sim = repos.get_mut(&repo_key(&repo)).unwrap();
                if let Some(c) = sim.changes.iter_mut().find(|c| c.number == change.number) {
                    c.auto_merge = true;
                }
                ForgeReply::AutoMerge(true)
            }
            // CI is instantly green in the simulation.
            ForgeRequest::PipelineStatus { .. } => ForgeReply::Pipeline(PipelineStatus {
                status: CiStatus::Success,
                url: "https://forge/pipeline/1".into(),
            }),
            ForgeRequest::Merge { repo, change } => {
                let sim = repos.get_mut(&repo_key(&repo)).unwrap();
                let branch = sim
                    .changes
                    .iter()
                    .find(|c| c.number == change.number)
                    .map(|c| c.branch.clone())
                    .unwrap();
                MockForge::apply_merge(sim, &branch);
                if let Some(c) = sim.changes.iter_mut().find(|c| c.number == change.number) {
                    c.merged = true;
                }
                ForgeReply::Merged("merge-sha".into())
            }
            ForgeRequest::ChangeState { repo, change } => {
                let sim = repos.get_mut(&repo_key(&repo)).unwrap();
                let (merged, auto, branch) = {
                    let c = sim.changes.iter().find(|c| c.number == change.number).unwrap();
                    (c.merged, c.auto_merge, c.branch.clone())
                };
                if merged {
                    return ForgeReply::State(ChangeState::Merged);
                }
                // Merge-when-pipeline-succeeds: CI is always green, so an auto-merge
                // change merges on the first state poll.
                if auto {
                    MockForge::apply_merge(sim, &branch);
                    if let Some(c) = sim.changes.iter_mut().find(|c| c.number == change.number) {
                        c.merged = true;
                    }
                    return ForgeReply::State(ChangeState::Merged);
                }
                ForgeReply::State(ChangeState::Open)
            }
        }
    }
}

/// Runs the turns of a wave against the mock forge until it is settled.
fn reconcile<O: WaveObserver>(
    wave: pb::Wave,
    forge: &MockForge,
    observer: &O,
) -> Result<pb::Wave, RunError> {
    let chain = ProviderChain::default_chain();
    let mut runner = WaveRunner::new(wave);
    let mut reply = None;
    loop {
        let (next, progress) = runner.advance(&chain, observer, reply.take());
        runner = next;
        match progress {
            Progress::Continue => {}
            Progress::Ask(request) => reply = Some(forge.answer(request)),
            Progress::Finished => return Ok(runner.into_wave()),
            Progress::Stopped(e) => return Err(e),
        }
    }
}

fn npm_node(name: &str, json: &str, publishes: bool) -> RepoNode {
    let p = NpmProvider::new();
    RepoNode {
        repo: repo(name),
        published: if publishes { p.published_name(json) } else { None },
        edges: p.parse_edges(json).unwrap_or_default(),
    }
}

const MODULES: &str = r#"{"name":"@s/modules","version":"0.1.1"}"#;
const FOUNDATION: &str =
    r#"{"name":"@s/foundation","version":"0.1.0","dependencies":{"@s/modules":"^0.1.0"}}"#;
const WEB: &str =
    r#"{"name":"@s/web","version":"0.0.0","dependencies":{"@s/foundation":"^0.1.0"}}"#;

fn two_tiers() -> pb::Wave {
    let nodes = vec![
        npm_node("modules", MODULES, true),
        npm_node("foundation", FOUNDATION, true),
        npm_node("web", WEB, false), // web is an app: publishes nothing
    ];
    let plan = propose(nodes, "@s/modules", "0.1.1", false);
    materialize(&plan, false)
}

fn seeded(allows_auto_merge: bool) -> MockForge {
    let forge = MockForge::new(allows_auto_merge);
    forge.seed("modules", "package.json", MODULES, None);
    forge.seed("foundation", "package.json", FOUNDATION, Some(("0.1.0", "0.1.1")));
    forge.seed("web", "package.json", WEB, None);
    forge
}

fn item<'a>(wave: &'a pb::Wave, name: &str) -> &'a pb::WaveItem {
    wave.items.iter().find(|i| i.repo.as_ref().unwrap().name == name).unwrap()
}

#[test]
fn cascade_drives_two_tiers_to_completion() {
    // modules (root) → foundation (publishes) → web (app).
    let forge = seeded(true);
    let wave = reconcile(two_tiers(), &forge, &NullObserver).unwrap();
    assert_eq!(item(&wave, "foundation").state, pb::WaveItemState::Published as i32);
    assert_eq!(item(&wave, "foundation").published_version, "0.1.1");
    assert!(item(&wave, "foundation").change.is_some());
    assert_eq!(item(&wave, "web").state, pb::WaveItemState::Published as i32);
    assert_eq!(wave.state, pb::WaveState::Completed as i32);

    // The forge's live manifests reflect the cascade: foundation bumped its
    // dep on modules, web bumped its dep on foundation. The bump preserves
    // the source's (compact) formatting.
    assert!(forge
        .default_file("foundation", "package.json")
        .contains(r#""@s/modules":"^0.1.1""#));
    assert!(forge
        .default_file("web", "package.json")
        .contains(r#""@s/foundation":"^0.1.1""#));
}

struct Recorder(Mutex<Vec<(String, i32, i32)>>);

impl WaveObserver for Recorder {
    fn on_event(&self, e: &pb::WaveEvent) {
        self.0.lock().unwrap().push((e.item_key.clone(), e.from_state, e.to_state));
    }
}

#[test]
fn without_auto_merge_the_cascade_merges_itself() {
    let forge = seeded(false);
    let events = Recorder(Mutex::new(Vec::new()));
    let wave = reconcile(two_tiers(), &forge, &events).unwrap();
    assert_eq!(wave.state, pb::WaveState::Completed as i32);
    assert!(!wave.completed_at.is_empty());
    let key = "gitlab.savvifi.com|studio/web";
    let seen: Vec<(i32, i32)> = events
        .0
        .lock()
        .unwrap()
        .iter()
        .filter(|(k, _, _)| k == key)
        .map(|(_, from, to)| (*from, *to))
        .collect();
    assert_eq!(
        seen,
        vec![
            (S::Pending as i32, S::MrOpen as i32),
            (S::MrOpen as i32, S::CiGreen as i32),
            (S::CiGreen as i32, S::Merged as i32),
            (S::Merged as i32, S::Published as i32),
        ]
    );
    // A settled wave stays as it is.
    let again = reconcile(wave.clone(), &forge, &NullObserver).unwrap();
    assert_eq!(again, wave);
}

#[test]
fn an_item_with_nothing_to_bump_is_skipped() {
    let forge = seeded(true);
    forge.seed("foundation", "package.json", r#"{"name":"@s/foundation","version":"0.1.0"}"#, None);
    let wave = reconcile(two_tiers(), &forge, &NullObserver).unwrap();
    assert_eq!(item(&wave, "foundation").state, pb::WaveItemState::Skipped as i32);
    assert_eq!(item(&wave, "foundation").published_version, "0.1.0");
    assert_eq!(item(&wave, "foundation").upstream_targets.get("@s/modules").unwrap(), "0.1.1");
    assert_eq!(item(&wave, "web").upstream_targets.get("@s/foundation").unwrap(), "0.1.0");
}

#[test]
fn a_missing_manifest_stops_the_wave_and_it_can_resume() {
    let forge = seeded(true);
    forge.seed("foundation", "other.json", FOUNDATION, None);
    let wave = two_tiers();
    let err = reconcile(wave.clone(), &forge, &NullObserver).unwrap_err();
    assert_eq!(err.to_text(), "package.json not found on gitlab.savvifi.com|studio/foundation");
    forge.seed("foundation", "package.json", FOUNDATION, Some(("0.1.0", "0.1.1")));
    let done = reconcile(wave, &forge, &NullObserver).unwrap();
    assert_eq!(done.state, pb::WaveState::Completed as i32);
}

#[test]
fn a_publish_that_has_not_come_leaves_the_wave_merging() {
    let forge = seeded(true);
    forge.seed("foundation", "package.json", FOUNDATION, None);
    let wave = reconcile(two_tiers(), &forge, &NullObserver).unwrap();
    assert_eq!(item(&wave, "foundation").state, pb::WaveItemState::Merged as i32);
    assert_eq!(item(&wave, "web").state, pb::WaveItemState::Pending as i32);
    assert_eq!(wave.state, pb::WaveState::Merging as i32);
    assert_eq!(wave.completed_at, "");
}

fn in_state(state: pb::WaveItemState) -> pb::WaveItem {
    pb::WaveItem {
        repo: Some(to_pb_repo(&repo("web"))),
        manifest_path: "package.json".into(),
        published_module: "@s/web".into(),
        baseline_version: "0.1.0".into(),
        state: state as i32,
        change: Some(pb::ChangeRef { number: 1, url: "u".into(), branch: "b".into() }),
        ..Default::default()
    }
}

fn reply_to(item: pb::WaveItem, stage: Stage, reply: ForgeReply) -> (pb::WaveItem, Next) {
    let chain = ProviderChain::default_chain();
    let step = respond(&chain, "wave-1", item, &stage, reply, "now");
    (step.item, step.next)
}

#[test]
fn polling_reads_the_change_and_its_pipeline() {
    let poll = |stage: Stage, reply: ForgeReply| reply_to(in_state(S::MrOpen), stage, reply);
    let (i, next) = poll(Stage::PollState, ForgeReply::State(ChangeState::Closed));
    assert_eq!((i.state, i.error.as_str()), (S::Failed as i32, "change closed without merging"));
    assert_eq!(next, Next::Settled(true));
    let (_, next) = poll(Stage::PollState, ForgeReply::State(ChangeState::Open));
    assert!(matches!(next, Next::Ask(Stage::PollPipeline, ForgeRequest::PipelineStatus { .. })));
    let pipeline = |status| ForgeReply::Pipeline(PipelineStatus { status, url: "p".into() });
    let (i, _) = poll(Stage::PollPipeline, pipeline(CiStatus::Success));
    assert_eq!(i.state, S::CiGreen as i32);
    let (i, _) = poll(Stage::PollPipeline, pipeline(CiStatus::Failed));
    assert_eq!((i.state, i.error.as_str()), (S::Failed as i32, "pipeline Failed"));
    let (i, _) = poll(Stage::PollPipeline, pipeline(CiStatus::Canceled));
    assert_eq!(i.error, "pipeline Canceled");
    let (i, next) = poll(Stage::PollPipeline, pipeline(CiStatus::Running));
    assert_eq!((i.state, next), (S::MrOpen as i32, Next::Settled(false)));
}

#[test]
fn merging_and_publish_detection_follow_the_forge() {
    let (i, _) = reply_to(
        in_state(S::CiGreen),
        Stage::MergeState,
        ForgeReply::State(ChangeState::Merged),
    );
    assert_eq!(i.state, S::Merged as i32);
    let (_, next) =
        reply_to(in_state(S::CiGreen), Stage::MergeState, ForgeReply::State(ChangeState::Closed));
    assert!(matches!(next, Next::Ask(Stage::MergeChange, ForgeRequest::Merge { .. })));
    let manifest = |v: &str| {
        ForgeReply::File(Some(FileBlob {
            content: format!("{{\"version\":\"{v}\"}}"),
            blob_sha: String::new(),
        }))
    };
    let (i, _) = reply_to(in_state(S::Merged), Stage::Publish, manifest("0.2.0"));
    assert_eq!((i.state, i.published_version.as_str()), (S::Published as i32, "0.2.0"));
    let (i, next) = reply_to(in_state(S::Merged), Stage::Publish, manifest("0.1.0"));
    assert_eq!((i.state, next), (S::Merged as i32, Next::Settled(false)));
    let (_, next) = reply_to(in_state(S::Merged), Stage::Publish, ForgeReply::File(None));
    assert_eq!(next, Next::Settled(false));
}

#[test]
fn every_error_says_what_is_wrong() {
    let chain = ProviderChain::default_chain();
    let start = |item: pb::WaveItem, action: ItemAction| {
        match begin(&chain, "wave-1", item, action, "now").next {
            Next::Stopped(e) => e.to_text(),
            other => panic!("expected an error, got {other:?}"),
        }
    };
    let mut no_repo = in_state(S::Pending);
    no_repo.repo = None;
    assert_eq!(start(no_repo, ItemAction::Poll), "wave item missing repo");
    let mut no_change = in_state(S::MrOpen);
    no_change.change = None;
    assert_eq!(start(no_change.clone(), ItemAction::Poll), "polling an item with no change");
    assert_eq!(start(no_change, ItemAction::Merge), "merging an item with no change");
    let mut odd = in_state(S::Pending);
    odd.manifest_path = "go.mod".into();
    assert_eq!(
        start(odd, ItemAction::Open(Targets::new())),
        "no provider for manifest go.mod"
    );
    let (_, next) = reply_to(in_state(S::Pending), Stage::OpenBranch(Targets::new()), ForgeReply::Done);
    assert_eq!(next, Next::Stopped(RunError::UnexpectedReply));
    assert_eq!(RunError::UnexpectedReply.to_text(), "unexpected forge reply");
}

#[test]
fn a_forge_error_fails_the_item() {
    let bump = || Bump {
        targets: Targets::new(),
        default_branch: "main".into(),
        text: "t".into(),
        blob_sha: "s".into(),
        baseline: "0.1.0".into(),
    };
    let targets = Targets::new;
    let stages = vec![
        (S::Pending, Stage::OpenBranch(targets())),
        (S::Pending, Stage::OpenManifest { targets: targets(), default_branch: "main".into() }),
        (S::Pending, Stage::OpenCreate(bump())),
        (S::Pending, Stage::OpenCommit(bump())),
        (S::Pending, Stage::OpenChange(bump())),
        (S::MrOpen, Stage::PollState),
        (S::CiRunning, Stage::PollPipeline),
        (S::CiGreen, Stage::MergeState),
        (S::CiGreen, Stage::MergeChange),
        (S::Merged, Stage::Publish),
    ];
    for (state, stage) in stages {
        let (i, next) = reply_to(in_state(state), stage, ForgeReply::Failed("boom".into()));
        assert_eq!((i.state, i.error.as_str()), (S::Failed as i32, "boom"));
        assert_eq!(next, Next::Settled(true));
    }
    // Without auto-merge the cascade merges itself.
    let change = ChangeRef { number: 1, url: "u".into(), branch: "b".into() };
    let (i, _) = reply_to(
        in_state(S::Pending),
        Stage::OpenAutoMerge { bump: bump(), change },
        ForgeReply::Failed("boom".into()),
    );
    assert_eq!((i.state, i.error.as_str()), (S::MrOpen as i32, ""));
}

#[test]
fn a_manifest_at_its_target_is_skipped() {
    let forge = seeded(true);
    forge.seed(
        "foundation",
        "package.json",
        r#"{"name":"@s/foundation","version":"0.1.0","dependencies":{"@s/modules":"^0.1.1"}}"#,
        None,
    );
    let wave = reconcile(two_tiers(), &forge, &NullObserver).unwrap();
    assert_eq!(item(&wave, "foundation").state, pb::WaveItemState::Skipped as i32);
    assert_eq!(item(&wave, "foundation").published_version, "0.1.0");
    assert!(item(&wave, "foundation").change.is_none());
}

#[test]
fn reconciling_a_wave_in_flight_again_changes_nothing() {
    // foundation is merged but has not published: web waits for it.
    let forge = seeded(true);
    forge.seed("foundation", "package.json", FOUNDATION, None);
    let once = reconcile(two_tiers(), &forge, &NullObserver).unwrap();
    let events = Recorder(Mutex::new(Vec::new()));
    let again = reconcile(once.clone(), &forge, &events).unwrap();
    assert_eq!(again, once);
    assert!(events.0.lock().unwrap().is_empty());
}

/// Runs the turns of a wave, the time of each being `when` and its number, until it
/// is settled; and the transitions made.
fn reconcile_from(wave: pb::Wave, forge: &MockForge, when: &str) -> (pb::Wave, usize) {
    let chain = ProviderChain::default_chain();
    let mut runner = WaveRunner::new(wave);
    let mut reply = None;
    let mut turn = 0;
    let mut moves = 0;
    loop {
        let (next, event, progress) =
            runner.advance_at(&chain, reply.take(), &format!("{when}{turn}"));
        runner = next;
        turn += 1;
        moves += event.iter().count();
        match progress {
            Progress::Continue => {}
            Progress::Ask(request) => reply = Some(forge.answer(request)),
            Progress::Finished => return (runner.into_wave(), moves),
            Progress::Stopped(e) => panic!("{e:?}"),
        }
    }
}

#[test]
fn reconciling_a_settled_wave_later_changes_nothing() {
    let forge = seeded(true);
    let (once, moves) = reconcile_from(two_tiers(), &forge, "monday ");
    assert!(moves > 0);
    assert!(once.completed_at.starts_with("monday "));
    let (again, moves) = reconcile_from(once.clone(), &forge, "tuesday ");
    assert_eq!(again, once);
    assert_eq!(moves, 0);
}

#[test]
fn an_app_is_published_once_merged() {
    let chain = ProviderChain::default_chain();
    let mut app = in_state(S::Merged);
    app.published_module = String::new();
    let step = begin(&chain, "wave-1", app, ItemAction::DetectPublish, "now");
    assert_eq!(step.item.state, S::Published as i32);
    let event = step.event.unwrap();
    assert_eq!(event.detail, "merged (publishes nothing)");
    assert_eq!(event.at, "now");
    assert_eq!(event.from_state, S::Merged as i32);
}

#[test]
fn ids_are_made_of_letters_digits_and_dashes() {
    assert_eq!(slug("@s/modules"), "s-modules");
    assert_eq!(slug("--a b--"), "a-b");
    assert_eq!(slug("é"), "");
    assert_eq!(
        wave_id_at("@s/modules", "0.1.1", "20260618T000000Z"),
        "wave-s-modules-v0-1-1-20260618T000000Z"
    );
    let id = wave_id("@s/modules", "0.1.1");
    assert!(id.starts_with("wave-s-modules-v0-1-1-2"));
    assert_eq!(id.len(), "wave-s-modules-v0-1-1-20260618T000000Z".len());
    let stamp = &id["wave-s-modules-v0-1-1-".len()..];
    assert!(stamp.bytes().enumerate().all(|(i, b)| match i {
        8 => b == b'T',
        15 => b == b'Z',
        _ => b.is_ascii_digit(),
    }));
}

#[test]
fn a_materialized_wave_is_pending_on_its_branch() {
    let nodes = vec![npm_node("foundation", FOUNDATION, true)];
    let plan = propose(nodes, "@s/modules", "0.1.1", false);
    let wave = materialize_at(&plan, true, "2026-06-18T00:00:00Z", "wave-1");
    assert_eq!(wave.id, "wave-1");
    assert_eq!(wave.state, pb::WaveState::Open as i32);
    assert!(wave.force_bump_satisfied);
    assert_eq!(wave.items.len(), 1);
    assert_eq!(wave.items[0].branch, "wave/wave-1");
    assert_eq!(wave.items[0].published_module, "@s/foundation");
    assert_eq!(wave.items[0].updated_at, "2026-06-18T00:00:00Z");
    assert_eq!(materialize_at(&plan, true, "2026-06-18T00:00:00Z", "wave-1"), wave);
    assert!(materialize(&plan, false).created_at.starts_with("2"));
}

#[test]
fn settling_keeps_the_time_it_was_done() {
    let wave = |states: &[S]| pb::Wave {
        items: states.iter().map(|s| in_state(*s)).collect(),
        ..Default::default()
    };
    let done = finalize(wave(&[S::Published, S::Skipped]), "t1");
    assert_eq!((done.state, done.completed_at.as_str()), (pb::WaveState::Completed as i32, "t1"));
    assert_eq!(finalize(done.clone(), "t2"), done);
    let failed = finalize(wave(&[S::Published, S::Failed]), "t1");
    assert_eq!(failed.state, pb::WaveState::Aborted as i32);
    let open = finalize(wave(&[S::Failed, S::Pending]), "t1");
    assert_eq!((open.state, open.completed_at.as_str()), (pb::WaveState::Merging as i32, ""));
    assert_eq!(finalize(wave(&[]), "t1").state, pb::WaveState::Completed as i32);
}

#[test]
fn actions_follow_states() {
    let wave = pb::Wave::default();
    let action = |s: S| next_action(&wave, &in_state(s));
    assert_eq!(action(S::MrOpen), ItemAction::Poll);
    assert_eq!(action(S::CiRunning), ItemAction::Poll);
    assert_eq!(action(S::CiGreen), ItemAction::Merge);
    assert_eq!(action(S::Merging), ItemAction::Merge);
    assert_eq!(action(S::Merged), ItemAction::DetectPublish);
    for s in [S::Published, S::Skipped, S::Failed, S::Unspecified] {
        assert_eq!(action(s), ItemAction::Done);
    }
    let mut odd = in_state(S::Pending);
    odd.state = 77;
    assert_eq!(next_action(&wave, &odd), ItemAction::Done);
    assert!(is_resolved(&in_state(S::Skipped)));
    assert!(!is_resolved(&in_state(S::Failed)));
}

#[test]
fn targets_are_kept_in_order_and_summarized() {
    let mut t = Targets::new();
    assert_eq!(summarize(&t), "");
    t.insert("b", "2.0");
    t.insert("a", "0.9");
    t.insert("a", "1.0");
    assert_eq!(summarize(&t), "a to 1.0, b to 2.0");
    assert_eq!(t.len(), 2);
    assert_eq!(t.get("a").map(String::as_str), Some("1.0"));
    assert_eq!(t.get("c"), None);
    let mut copy = t.clone();
    copy.insert("c", "3.0");
    assert_eq!(t.get("c"), None);
    assert_eq!(copy.at(2).0, "c");
}
