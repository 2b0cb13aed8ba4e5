//! One change per repo.
use wave::cascade::{ForgeReply, ForgeRequest};
use wave::discover::Candidate;
use wave::edge::{BumpDecision, EdgeKind, VersionConstraint};
use wave::forge::{ChangeRef, FileBlob, ForgeKind, OpenedChange, RepoRef};
use wave::open::{
    apply_bumps, group_candidates, render_body, summarize, OpenError, OpenProgress, Opening,
    RepoBumps,
};
use wave::provider::ProviderChain;

#[test]
fn summarize_reads_naturally_at_both_sizes() {
    assert_eq!(
        summarize(&vec![("@aion/kernel".into(), "0.2.3".into())]),
        "@aion/kernel to 0.2.3"
    );
    assert_eq!(
        summarize(&vec![
            ("@aion/kernel".into(), "0.2.3".into()),
            ("@aion/logger".into(), "0.2.1".into()),
        ]),
        "2 dependencies"
    );
}

#[test]
fn body_lists_every_bump() {
    let body = render_body(&vec![
        ("@aion/kernel".into(), "0.2.3".into()),
        ("@aion/logger".into(), "0.2.1".into()),
    ]);
    assert!(body.contains("- `@aion/kernel` → `0.2.3`"));
    assert!(body.contains("- `@aion/logger` → `0.2.1`"));
}

#[test]
fn body_says_what_opened_the_change() {
    assert_eq!(
        render_body(&vec![("a".into(), "1.0.0".into())]),
        "Opened by `wave discover --open`.\n\n- `a` → `1.0.0`\n"
    );
    assert_eq!(summarize(&Vec::new()), "0 dependencies");
}

fn repo(name: &str) -> RepoRef {
    RepoRef {
        forge: ForgeKind::Gitlab as i32,
        host: "gitlab.savvifi.com".into(),
        owner: "studio".into(),
        name: name.into(),
    }
}

fn candidate(name: &str, manifest: &str, module: &str, latest: &str) -> Candidate {
    Candidate {
        repo: repo(name),
        module: module.into(),
        manifest_path: manifest.into(),
        kind: EdgeKind::Npm,
        current: VersionConstraint::parse_npm("^0.1.0"),
        latest: latest.into(),
        decision: BumpDecision::NeedsBump,
    }
}

#[test]
fn candidates_are_grouped_by_repo_and_manifest() {
    let groups = group_candidates(&vec![
        candidate("web", "package.json", "zod", "5.0.0"),
        candidate("api", "package.json", "zod", "5.0.0"),
        candidate("web", "MODULE.bazel", "rules", "1.0.0"),
        candidate("web", "package.json", "abc", "2.0.0"),
    ]);
    let shape: Vec<(&str, Vec<(&str, usize)>)> = groups
        .iter()
        .map(|g| {
            (
                g.repo.name.as_str(),
                g.manifests.iter().map(|m| (m.path.as_str(), m.bumps.len())).collect(),
            )
        })
        .collect();
    assert_eq!(
        shape,
        vec![
            ("api", vec![("package.json", 1)]),
            ("web", vec![("MODULE.bazel", 1), ("package.json", 2)]),
        ]
    );
    assert_eq!(
        groups[1].manifests[1].bumps,
        vec![("zod".to_string(), "5.0.0".to_string()), ("abc".to_string(), "2.0.0".to_string())]
    );
    assert!(group_candidates(&Vec::new()).is_empty());
}

#[test]
fn only_the_bumps_that_are_there_are_written() {
    let chain = ProviderChain::default_chain();
    let npm = chain.for_manifest("package.json").unwrap();
    let (text, changed) = apply_bumps(
        npm,
        "{\"a\":\"^1.0.0\",\"b\":\"~1.0.0\"}",
        &vec![("b".into(), "2.0.0".into()), ("c".into(), "3.0.0".into())],
    );
    assert_eq!(text, "{\"a\":\"^1.0.0\",\"b\":\"~2.0.0\"}");
    assert_eq!(changed, vec![("b".to_string(), "2.0.0".to_string())]);
    // What is at its target already is nothing new.
    let at_target = vec![("b".to_string(), "2.0.0".to_string())];
    assert_eq!(apply_bumps(npm, &text, &at_target), (text.clone(), Vec::new()));
}

fn group(cs: Vec<Candidate>) -> RepoBumps {
    group_candidates(&cs).remove(0)
}

fn asked(p: OpenProgress) -> ForgeRequest {
    match p {
        OpenProgress::Ask(r) => r,
        other => panic!("expected a request, got {other:?}"),
    }
}

fn opened(existed: bool) -> ForgeReply {
    ForgeReply::Opened(OpenedChange {
        change: ChangeRef { number: 7, url: "https://forge/7".into(), branch: "wave/dep-bumps".into() },
        already_existed: existed,
    })
}

fn file(content: &str) -> ForgeReply {
    ForgeReply::File(Some(FileBlob { content: content.into(), blob_sha: "sha".into() }))
}

#[test]
fn a_repo_is_opened_step_by_step() {
    let chain = ProviderChain::default_chain();
    let o = Opening::new(
        group(vec![
            candidate("web", "go.mod", "x", "1.0.0"),
            candidate("web", "package.json", "zod", "5.0.0"),
        ]),
        "wave/dep-bumps",
        true,
    );
    let (o, p) = o.advance(&chain, None);
    assert_eq!(asked(p), ForgeRequest::DefaultBranch { repo: repo("web") });
    let (o, p) = o.advance(&chain, Some(ForgeReply::Branch("main".into())));
    assert_eq!(
        asked(p),
        ForgeRequest::CreateBranch {
            repo: repo("web"),
            branch: "wave/dep-bumps".into(),
            from: "main".into()
        }
    );
    // No provider reads go.mod: it is skipped.
    let (o, p) = o.advance(&chain, Some(ForgeReply::Done));
    assert_eq!(
        asked(p),
        ForgeRequest::ReadFile {
            repo: repo("web"),
            path: "package.json".into(),
            at: "wave/dep-bumps".into()
        }
    );
    let (o, p) = o.advance(&chain, Some(file("{\"zod\":\"^4.0.0\"}")));
    assert_eq!(
        asked(p),
        ForgeRequest::CommitFile {
            repo: repo("web"),
            branch: "wave/dep-bumps".into(),
            path: "package.json".into(),
            content: "{\"zod\":\"^5.0.0\"}".into(),
            blob_sha: "sha".into(),
            message: "Bump zod to 5.0.0".into(),
        }
    );
    let (o, p) = o.advance(&chain, Some(ForgeReply::Done));
    assert_eq!(
        asked(p),
        ForgeRequest::OpenChange {
            repo: repo("web"),
            branch: "wave/dep-bumps".into(),
            base: "main".into(),
            title: "Bump zod to 5.0.0".into(),
            body: "Opened by `wave discover --open`.\n\n- `zod` → `5.0.0`\n".into(),
        }
    );
    let (o, p) = o.advance(&chain, Some(opened(true)));
    assert!(matches!(asked(p), ForgeRequest::EnableAutoMerge { .. }));
    // Auto-merge is best-effort.
    let (_, p) = o.advance(&chain, Some(ForgeReply::Failed("no pipeline".into())));
    match p {
        OpenProgress::Finished(Some(outcome)) => {
            assert_eq!(outcome.url, "https://forge/7");
            assert!(outcome.already_existed);
            assert_eq!(outcome.bumped, vec![("zod".to_string(), "5.0.0".to_string())]);
        }
        other => panic!("expected an outcome, got {other:?}"),
    }
}

#[test]
fn nothing_to_bump_opens_no_change() {
    let chain = ProviderChain::default_chain();
    let o = Opening::new(group(vec![candidate("web", "package.json", "zod", "5.0.0")]), "b", false);
    let (o, _) = o.advance(&chain, None);
    let (o, _) = o.advance(&chain, Some(ForgeReply::Branch("main".into())));
    let (o, _) = o.advance(&chain, Some(ForgeReply::Done));
    let (_, p) = o.advance(&chain, Some(file("{\"other\":\"^4.0.0\"}")));
    assert_eq!(p, OpenProgress::Finished(None));
}

#[test]
fn a_branch_at_its_targets_opens_no_change() {
    let chain = ProviderChain::default_chain();
    let o = Opening::new(group(vec![candidate("web", "package.json", "zod", "5.0.0")]), "b", true);
    let (o, _) = o.advance(&chain, None);
    let (o, _) = o.advance(&chain, Some(ForgeReply::Branch("main".into())));
    let (o, _) = o.advance(&chain, Some(ForgeReply::Done));
    let (_, p) = o.advance(&chain, Some(file("{\"zod\":\"^5.0.0\"}")));
    assert_eq!(p, OpenProgress::Finished(None));
}

#[test]
fn without_auto_merge_the_change_is_held() {
    let chain = ProviderChain::default_chain();
    let o = Opening::new(group(vec![candidate("web", "package.json", "zod", "5.0.0")]), "b", false);
    let (o, _) = o.advance(&chain, None);
    let (o, _) = o.advance(&chain, Some(ForgeReply::Branch("main".into())));
    let (o, _) = o.advance(&chain, Some(ForgeReply::Done));
    let (o, _) = o.advance(&chain, Some(file("{\"zod\":\"^4.0.0\"}")));
    let (o, _) = o.advance(&chain, Some(ForgeReply::Done));
    let (_, p) = o.advance(&chain, Some(opened(false)));
    assert!(matches!(p, OpenProgress::Finished(Some(o)) if !o.already_existed));
}

#[test]
fn a_failed_request_stops_with_what_was_being_done() {
    let chain = ProviderChain::default_chain();
    let start = || {
        Opening::new(group(vec![candidate("web", "package.json", "zod", "5.0.0")]), "b", false)
    };
    let key = "gitlab.savvifi.com|studio/web";
    let fails = |replies: Vec<ForgeReply>| {
        let mut o = start().advance(&chain, None).0;
        for r in replies {
            o = o.advance(&chain, Some(r)).0;
        }
        match o.advance(&chain, Some(ForgeReply::Failed("boom".into()))).1 {
            OpenProgress::Stopped(OpenError::Forge { doing, why }) => {
                assert_eq!(why, "boom");
                doing
            }
            other => panic!("expected an error, got {other:?}"),
        }
    };
    assert_eq!(fails(vec![]), format!("default branch for {key}"));
    let branch = || ForgeReply::Branch("main".into());
    assert_eq!(fails(vec![branch()]), format!("create branch b on {key}"));
    assert_eq!(fails(vec![branch(), ForgeReply::Done]), format!("read package.json on {key}"));
    let zod = || file("{\"zod\":\"^4.0.0\"}");
    assert_eq!(
        fails(vec![branch(), ForgeReply::Done, zod()]),
        format!("commit package.json on {key}")
    );
    assert_eq!(
        fails(vec![branch(), ForgeReply::Done, zod(), ForgeReply::Done]),
        format!("open change on {key}")
    );
    let (o, _) = start().advance(&chain, None);
    let (_, p) = o.advance(&chain, Some(ForgeReply::Done));
    assert_eq!(p, OpenProgress::Stopped(OpenError::UnexpectedReply));
}

#[test]
fn an_absent_manifest_is_passed_over() {
    let chain = ProviderChain::default_chain();
    let o = Opening::new(group(vec![candidate("web", "package.json", "zod", "5.0.0")]), "b", false);
    let (o, _) = o.advance(&chain, None);
    let (o, _) = o.advance(&chain, Some(ForgeReply::Branch("main".into())));
    let (o, _) = o.advance(&chain, Some(ForgeReply::Done));
    let (_, p) = o.advance(&chain, Some(ForgeReply::File(None)));
    assert_eq!(p, OpenProgress::Finished(None));
}
