//! What the command line decides.
use wave::cli::{
    active_waves, anchor, effective_host, parse_forge_kind, parse_scope_registry, pick_token,
    render_opened, render_started, select_for_plan, select_for_scan, token_candidates, DiscoverArgs,
    OpenOrder, PlanArgs, Selection,
};
use wave::enumerate::RepoSpec;
use wave::forge::{ForgeKind, RepoRef};
use wave::open::OpenOutcome;
use wave::pb;
use wave::text::{contains_text, join, pad_left, pad_right, text_before, trim};

#[test]
fn forges_hosts_and_tokens() {
    assert_eq!(parse_forge_kind("github"), Ok(ForgeKind::Github));
    assert_eq!(parse_forge_kind("gitlab"), Ok(ForgeKind::Gitlab));
    assert_eq!(
        parse_forge_kind("svn"),
        Err("unknown forge svn (use github|gitlab)".to_string())
    );
    assert_eq!(effective_host(ForgeKind::Github, ""), "github.com");
    assert_eq!(effective_host(ForgeKind::Gitlab, ""), "gitlab.com");
    assert_eq!(effective_host(ForgeKind::Unspecified, ""), "gitlab.com");
    assert_eq!(effective_host(ForgeKind::Github, "ghe.corp"), "ghe.corp");
    assert_eq!(token_candidates(ForgeKind::Gitlab), ["GITLAB_TOKEN", "FORGE_TOKEN"]);
    assert_eq!(token_candidates(ForgeKind::Github), ["GITHUB_TOKEN", "FORGE_TOKEN"]);
    assert_eq!(token_candidates(ForgeKind::Unspecified), ["FORGE_TOKEN"]);
    let pick = |vs: Vec<Option<&str>>| {
        pick_token(ForgeKind::Gitlab, &vs.into_iter().map(|v| v.map(str::to_string)).collect())
    };
    assert_eq!(pick(vec![Some(""), Some("b")]), Ok("b".to_string()));
    assert_eq!(pick(vec![Some("a"), Some("b")]), Ok("a".to_string()));
    assert_eq!(
        pick(vec![None, Some("")]),
        Err("no token in env — set GITLAB_TOKEN (or FORGE_TOKEN)".to_string())
    );
    assert_eq!(ForgeKind::from_number(2), ForgeKind::Gitlab);
    assert_eq!(ForgeKind::from_number(9), ForgeKind::Unspecified);
    assert_eq!(ForgeKind::Github.to_number(), ForgeKind::Github as i32);
}

#[test]
fn repos_are_listed_or_enumerated() {
    let group = |s: &str| s.to_string();
    let repos = |l: &[&str]| l.iter().map(|s| s.to_string()).collect::<Vec<String>>();
    assert_eq!(select_for_plan(&group("g"), &repos(&[])), Ok(Selection::Group));
    assert_eq!(
        select_for_plan(&group(""), &repos(&[])),
        Err("pass --group <org/group> or --repos a,b,c".to_string())
    );
    let listed = Selection::Listed(vec![RepoSpec { name: "a".into() }]);
    assert_eq!(select_for_plan(&group(""), &repos(&["a"])), Ok(listed));
    assert_eq!(
        select_for_scan(&group(""), &repos(&["a"])),
        Err("--repos also needs --group <org/group> (the owner the repos live under)".to_string())
    );
    assert_eq!(
        select_for_scan(&group(""), &repos(&[])),
        Err("pass --group <org/group> or --repos a,b,c".to_string())
    );
    assert_eq!(select_for_scan(&group("g"), &repos(&[])), Ok(Selection::Group));
}

#[test]
fn scope_registries_are_pairs() {
    assert_eq!(
        parse_scope_registry("@aion/=https://h/p?x=1"),
        Ok(("@aion/".to_string(), "https://h/p?x=1".to_string()))
    );
    for bad in ["@aion/", "=https://h", "@aion/=", ""] {
        assert_eq!(
            parse_scope_registry(bad),
            Err(format!("--npm-scope-registry expects '@scope/=<registry-url>', got {bad:?}"))
        );
    }
    assert!(parse_scope_registry("a\"b").unwrap_err().ends_with("got \"a\\\"b\""));
}

fn wave(id: &str, state: pb::WaveState) -> pb::Wave {
    pb::Wave { id: id.into(), state: state as i32, ..Default::default() }
}

#[test]
fn finished_waves_are_not_driven() {
    let kept = active_waves(&vec![
        wave("a", pb::WaveState::Open),
        wave("b", pb::WaveState::Completed),
        wave("c", pb::WaveState::Merging),
        wave("d", pb::WaveState::Aborted),
    ]);
    let ids: Vec<&str> = kept.iter().map(|w| w.id.as_str()).collect();
    assert_eq!(ids, ["a", "c"]);
}

#[test]
fn a_wave_is_anchored_at_its_first_item() {
    let r = |name: &str| pb::RepoRef { name: name.into(), ..Default::default() };
    let mut w = wave("a", pb::WaveState::Open);
    assert_eq!(anchor(&w), None);
    w.root_repo = Some(r("root"));
    w.items = vec![pb::WaveItem::default()];
    assert_eq!(anchor(&w), Some(r("root")));
    w.items[0].repo = Some(r("web"));
    assert_eq!(anchor(&w), Some(r("web")));
}

#[test]
fn what_was_opened_is_said() {
    let o = |existed: bool, n: usize| OpenOutcome {
        repo: RepoRef { forge: 1, host: "h".into(), owner: "o".into(), name: "n".into() },
        url: "u".into(),
        already_existed: existed,
        bumped: vec![("a".into(), "1".into()); n],
    };
    assert_eq!(
        render_opened(&vec![o(true, 1), o(false, 2)]),
        "refreshed h|o/n (1 bump(s)): u\nopened h|o/n (2 bump(s)): u\n"
    );
    assert_eq!(
        render_opened(&Vec::new()),
        "nothing to open — every candidate is already on the branch\n"
    );
    let mut w = wave("w", pb::WaveState::Open);
    w.items = vec![pb::WaveItem::default()];
    assert_eq!(render_started(&w), "opened w (1 items)\n");
}

#[test]
fn arguments_say_their_configuration() {
    let args = DiscoverArgs {
        forge: "gitlab".into(),
        host: String::new(),
        group: "g".into(),
        repos: Vec::new(),
        internal_prefixes: vec!["@aion/".into()],
        force: true,
        include_internal: false,
        only_internal: true,
        npm_scope_registries: Vec::new(),
        open: false,
        open_branch: "wave/dep-bumps".into(),
        auto_merge: false,
        json: false,
    };
    let cfg = args.config();
    assert_eq!(cfg.internal_prefixes, ["@aion/"]);
    assert!(cfg.force && cfg.only_internal && !cfg.include_internal);
    assert!(args.lacks_scope_registry());
    // Without the flag discover only reports.
    assert_eq!(args.behind_report(), None);
    let writing = DiscoverArgs { open: true, auto_merge: true, ..args };
    let order = OpenOrder { branch: "wave/dep-bumps".into(), auto_merge: true };
    assert_eq!(writing.behind_report(), Some(order));
    let plan = PlanArgs {
        module: "m".into(),
        target: "1".into(),
        forge: "github".into(),
        host: String::new(),
        group: String::new(),
        repos: vec!["a".into()],
        force: false,
    };
    assert!(select_for_plan(&plan.group, &plan.repos).is_ok());
}

#[test]
fn text_primitives() {
    assert_eq!(trim("\u{2003} a b\t\n"), "a b");
    assert!(contains_text("abcabd", "abd"));
    assert!(!contains_text("ab", "abc"));
    assert!(text_before("a", "ab"));
    assert!(!text_before("b", "ab"));
    assert_eq!(join(&vec!["a".into(), "b".into()], ", "), "a, b");
    assert_eq!(pad_right("é", 3), "é  ");
    assert_eq!(pad_left("abcd", 3), "abcd");
}
