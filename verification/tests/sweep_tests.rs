use git_sweep::cli::{params_for, requires_repo_check, Cli, CommandKind};
use git_sweep::parse::parse_skips;
use git_sweep::sweep::{
    is_affirmative, join_with_commas, local_suggestion, remote_suggestion, sweep_next,
    SweepAction, SweepEvent, SweepParams, SweepState,
};

fn strings(xs: &[&str]) -> Vec<String> {
    xs.iter().map(|s| s.to_string()).collect()
}

fn remote_params(dry_run: bool, force: bool, fetch: bool, skips: &[&str]) -> SweepParams {
    SweepParams {
        remote: true,
        origin: "origin".to_string(),
        master: "master".to_string(),
        fetch,
        skips: strings(skips),
        dry_run,
        force,
    }
}

fn local_params(dry_run: bool, force: bool, master: &str, skips: &[&str]) -> SweepParams {
    SweepParams {
        remote: false,
        origin: String::new(),
        master: master.to_string(),
        fetch: false,
        skips: strings(skips),
        dry_run,
        force,
    }
}

fn is_delete(a: &SweepAction) -> bool {
    matches!(
        a,
        SweepAction::RunDeleteRemote { .. } | SweepAction::RunDeleteLocal { .. }
    )
}

#[test]
fn preview_remote_end_to_end() {
    let p = remote_params(true, false, true, &[]);
    let (s, a) = sweep_next(&p, SweepState::Start, SweepEvent::Begin);
    match &a {
        SweepAction::RunFetch { origin } => assert_eq!(origin, "origin"),
        _ => panic!("expected a fetch first"),
    }
    let (s, a) = sweep_next(&p, s, SweepEvent::Fetched { ok: true });
    assert!(matches!(a, SweepAction::RunListRemote { .. }));
    let out = "origin/feature-a\norigin/feature-b\norigin/master\norigin/HEAD\n".to_string();
    let (s, a) = sweep_next(&p, s, SweepEvent::Listed { ok: true, output: out });
    match &a {
        SweepAction::RunCompare { origin, master, branch } => {
            assert_eq!(origin, "origin");
            assert_eq!(master, "master");
            assert_eq!(branch, "feature-a");
        },
        _ => panic!("expected the first comparison"),
    }
    let (s, a) = sweep_next(&p, s, SweepEvent::Compared { ok: true, output: String::new() });
    match &a {
        SweepAction::RunCompare { branch, .. } => assert_eq!(branch, "feature-b"),
        _ => panic!("expected the second comparison"),
    }
    let unmerged = "+ 1a2b3c not applied\n".to_string();
    let (s, a) = sweep_next(&p, s, SweepEvent::Compared { ok: true, output: unmerged });
    match &a {
        SweepAction::Report { merged, suggestion } => {
            assert_eq!(merged, &strings(&["feature-a"]));
            let sg = suggestion.as_ref().expect("a preview suggests the cleanup command");
            assert!(sg.contains("--master master"));
            assert_eq!(sg, "git-sweep cleanup --origin origin --master master");
        },
        _ => panic!("expected the report"),
    }
    let (_, a) = sweep_next(&p, s, SweepEvent::Proceed);
    match a {
        SweepAction::Stop { ok } => assert!(ok),
        _ => panic!("a preview stops after the report"),
    }
}

#[test]
fn preview_issues_no_delete_whatever_the_list_holds() {
    let p = remote_params(true, false, false, &[]);
    let mut actions: Vec<SweepAction> = Vec::new();
    let (s, a) = sweep_next(&p, SweepState::Start, SweepEvent::Begin);
    actions.push(a);
    let out = "origin/a\norigin/b\norigin/c\n".to_string();
    let (mut s, a) = sweep_next(&p, s, SweepEvent::Listed { ok: true, output: out });
    actions.push(a);
    for _ in 0..3 {
        let (s2, a) = sweep_next(&p, s, SweepEvent::Compared { ok: true, output: String::new() });
        s = s2;
        let done = matches!(a, SweepAction::Report { .. });
        actions.push(a);
        if done {
            break;
        }
    }
    let (_, a) = sweep_next(&p, s, SweepEvent::Proceed);
    actions.push(a);
    assert!(actions.iter().all(|a| !is_delete(a)));
}

#[test]
fn cleanup_force_deletes_in_list_order() {
    let p = remote_params(false, true, false, &[]);
    let (s, a) = sweep_next(&p, SweepState::Start, SweepEvent::Begin);
    assert!(matches!(a, SweepAction::RunListRemote { .. }));
    let out = "origin/a\norigin/b\n".to_string();
    let (s, _) = sweep_next(&p, s, SweepEvent::Listed { ok: true, output: out });
    let (s, _) = sweep_next(&p, s, SweepEvent::Compared { ok: true, output: String::new() });
    let (s, a) = sweep_next(&p, s, SweepEvent::Compared { ok: true, output: String::new() });
    match &a {
        SweepAction::Report { merged, suggestion } => {
            assert_eq!(merged, &strings(&["a", "b"]));
            assert!(suggestion.is_none());
        },
        _ => panic!("expected the report"),
    }
    // force: no confirmation, straight to the first delete
    let (s, a) = sweep_next(&p, s, SweepEvent::Proceed);
    match &a {
        SweepAction::RunDeleteRemote { origin, branch } => {
            assert_eq!(origin, "origin");
            assert_eq!(branch, "a");
        },
        _ => panic!("expected the first delete"),
    }
    let (s, a) = sweep_next(&p, s, SweepEvent::Deleted { ok: true });
    match &a {
        SweepAction::RunDeleteRemote { branch, .. } => assert_eq!(branch, "b"),
        _ => panic!("expected the second delete"),
    }
    let (_, a) = sweep_next(&p, s, SweepEvent::Deleted { ok: true });
    match a {
        SweepAction::Stop { ok } => assert!(ok),
        _ => panic!("expected the sweep to finish"),
    }
}

#[test]
fn cleanup_halts_on_first_delete_failure() {
    let p = remote_params(false, true, false, &[]);
    let (s, _) = sweep_next(&p, SweepState::Start, SweepEvent::Begin);
    let out = "origin/a\norigin/b\n".to_string();
    let (s, _) = sweep_next(&p, s, SweepEvent::Listed { ok: true, output: out });
    let (s, _) = sweep_next(&p, s, SweepEvent::Compared { ok: true, output: String::new() });
    let (s, _) = sweep_next(&p, s, SweepEvent::Compared { ok: true, output: String::new() });
    let (s, a) = sweep_next(&p, s, SweepEvent::Proceed);
    assert!(is_delete(&a));
    let (_, a) = sweep_next(&p, s, SweepEvent::Deleted { ok: false });
    match a {
        SweepAction::Stop { ok } => assert!(!ok),
        _ => panic!("a failed delete halts the sweep at once"),
    }
}

fn reach_confirmation(p: &SweepParams) -> SweepState {
    let (s, _) = sweep_next(p, SweepState::Start, SweepEvent::Begin);
    let out = "origin/a\n".to_string();
    let (s, _) = sweep_next(p, s, SweepEvent::Listed { ok: true, output: out });
    let (s, _) = sweep_next(p, s, SweepEvent::Compared { ok: true, output: String::new() });
    let (s, a) = sweep_next(p, s, SweepEvent::Proceed);
    assert!(matches!(a, SweepAction::AskConfirm));
    s
}

#[test]
fn confirmation_yes_proceeds_to_delete() {
    let p = remote_params(false, false, false, &[]);
    for answer in ["y\n", "Y", "  yes please  ", "Yup"] {
        let s = reach_confirmation(&p);
        let e = SweepEvent::Answered { text: answer.to_string() };
        let (_, a) = sweep_next(&p, s, e);
        match &a {
            SweepAction::RunDeleteRemote { branch, .. } => assert_eq!(branch, "a"),
            _ => panic!("an affirmative answer proceeds to delete"),
        }
    }
}

#[test]
fn confirmation_other_answers_abort_with_no_delete() {
    let p = remote_params(false, false, false, &[]);
    for answer in ["n", "", "maybe", "  ", "no y"] {
        let s = reach_confirmation(&p);
        let e = SweepEvent::Answered { text: answer.to_string() };
        let (_, a) = sweep_next(&p, s, e);
        match a {
            SweepAction::Stop { ok } => assert!(ok, "a declined sweep is not an error"),
            _ => panic!("a non-affirmative answer aborts the sweep"),
        }
    }
}

#[test]
fn failed_comparison_excludes_candidate_without_aborting() {
    let p = remote_params(true, false, false, &[]);
    let (s, _) = sweep_next(&p, SweepState::Start, SweepEvent::Begin);
    let out = "origin/odd\norigin/good\n".to_string();
    let (s, _) = sweep_next(&p, s, SweepEvent::Listed { ok: true, output: out });
    let (s, _) = sweep_next(&p, s, SweepEvent::Compared { ok: false, output: String::new() });
    let (_, a) = sweep_next(&p, s, SweepEvent::Compared { ok: true, output: String::new() });
    match &a {
        SweepAction::Report { merged, .. } => assert_eq!(merged, &strings(&["good"])),
        _ => panic!("expected the report"),
    }
}

#[test]
fn fetch_failure_is_fatal() {
    let p = remote_params(true, false, true, &[]);
    let (s, _) = sweep_next(&p, SweepState::Start, SweepEvent::Begin);
    let (_, a) = sweep_next(&p, s, SweepEvent::Fetched { ok: false });
    match a {
        SweepAction::Stop { ok } => assert!(!ok),
        _ => panic!("a failed fetch halts the sweep"),
    }
}

#[test]
fn listing_failure_is_fatal() {
    let p = remote_params(true, false, false, &[]);
    let (s, _) = sweep_next(&p, SweepState::Start, SweepEvent::Begin);
    let e = SweepEvent::Listed { ok: false, output: String::new() };
    let (_, a) = sweep_next(&p, s, e);
    match a {
        SweepAction::Stop { ok } => assert!(!ok),
        _ => panic!("a failed listing halts the sweep"),
    }
}

#[test]
fn empty_candidate_list_reports_and_stops() {
    let p = remote_params(false, true, false, &[]);
    let (s, _) = sweep_next(&p, SweepState::Start, SweepEvent::Begin);
    let e = SweepEvent::Listed { ok: true, output: String::new() };
    let (s, a) = sweep_next(&p, s, e);
    match &a {
        SweepAction::Report { merged, suggestion } => {
            assert!(merged.is_empty());
            assert!(suggestion.is_none());
        },
        _ => panic!("an empty list is still reported"),
    }
    let (_, a) = sweep_next(&p, s, SweepEvent::Proceed);
    match a {
        SweepAction::Stop { ok } => assert!(ok),
        _ => panic!("nothing to clean up is not an error"),
    }
}

#[test]
fn local_preview_with_skip() {
    let p = local_params(true, false, "develop", &["old-2"]);
    let (s, a) = sweep_next(&p, SweepState::Start, SweepEvent::Begin);
    match &a {
        SweepAction::RunListLocal { master } => assert_eq!(master, "develop"),
        _ => panic!("local scope lists local branches"),
    }
    let out = "  old-1\n* develop\n  old-2\n".to_string();
    let (_, a) = sweep_next(&p, s, SweepEvent::Listed { ok: true, output: out });
    match &a {
        SweepAction::Report { merged, suggestion } => {
            assert_eq!(merged, &strings(&["old-1"]));
            let sg = suggestion.as_ref().expect("a preview suggests the cleanup command");
            assert_eq!(sg, "git-sweep-rs cleanup-local --master develop --skip old-2");
        },
        _ => panic!("expected the report"),
    }
}

#[test]
fn local_cleanup_deletes_locally() {
    let p = local_params(false, true, "develop", &[]);
    let (s, _) = sweep_next(&p, SweepState::Start, SweepEvent::Begin);
    let out = "  old-1\n* develop\n".to_string();
    let (s, _) = sweep_next(&p, s, SweepEvent::Listed { ok: true, output: out });
    let (_, a) = sweep_next(&p, s, SweepEvent::Proceed);
    match &a {
        SweepAction::RunDeleteLocal { branch } => assert_eq!(branch, "old-1"),
        _ => panic!("local scope deletes the local ref"),
    }
}

#[test]
fn local_cleanup_confirmed_then_done() {
    let p = local_params(false, false, "develop", &[]);
    let (s, _) = sweep_next(&p, SweepState::Start, SweepEvent::Begin);
    let out = "  stale\n* develop\n".to_string();
    let (s, _) = sweep_next(&p, s, SweepEvent::Listed { ok: true, output: out });
    let (s, a) = sweep_next(&p, s, SweepEvent::Proceed);
    assert!(matches!(a, SweepAction::AskConfirm));
    let e = SweepEvent::Answered { text: "Y\n".to_string() };
    let (s, a) = sweep_next(&p, s, e);
    match &a {
        SweepAction::RunDeleteLocal { branch } => assert_eq!(branch, "stale"),
        _ => panic!("an affirmative answer deletes the local branch"),
    }
    let (_, a) = sweep_next(&p, s, SweepEvent::Deleted { ok: true });
    match a {
        SweepAction::Stop { ok } => assert!(ok),
        _ => panic!("expected the sweep to finish"),
    }
}

#[test]
fn suggestion_command_lines() {
    let skips = strings(&["a", "b"]);
    assert_eq!(
        remote_suggestion("origin", "master", true, &skips),
        "git-sweep cleanup --origin origin --master master --skip a,b"
    );
    assert_eq!(
        remote_suggestion("up", "main", false, &strings(&[])),
        "git-sweep cleanup --origin up --master main --nofetch"
    );
    assert_eq!(local_suggestion("main", &strings(&[])), "git-sweep-rs cleanup-local --master main");
    assert_eq!(join_with_commas(&skips), "a,b");
    assert_eq!(join_with_commas(&strings(&[])), "");
    assert_eq!(join_with_commas(&strings(&["solo"])), "solo");
}

#[test]
fn affirmative_answers() {
    assert!(is_affirmative("y"));
    assert!(is_affirmative("  Y\n"));
    assert!(is_affirmative("yes"));
    assert!(!is_affirmative("n"));
    assert!(!is_affirmative(""));
    assert!(!is_affirmative("maybe"));
    assert!(!is_affirmative("  "));
}

#[test]
fn command_kinds_select_parameters() {
    let c = CommandKind::Preview {
        origin: "origin".to_string(),
        master: "master".to_string(),
        nofetch: true,
        skips: " a, ,b ,".to_string(),
    };
    assert!(requires_repo_check(&c));
    let p = params_for(c);
    assert!(p.remote && p.dry_run && !p.force && !p.fetch);
    assert_eq!(p.skips, strings(&["a", "b"]));

    let cli = Cli {
        command: CommandKind::Cleanup {
            force: true,
            origin: "up".to_string(),
            master: "main".to_string(),
            nofetch: false,
            skips: String::new(),
        },
    };
    let c = cli.command;
    assert!(requires_repo_check(&c));
    let p = params_for(c);
    assert!(p.remote && !p.dry_run && p.force && p.fetch);
    assert!(p.skips.is_empty());

    let c = CommandKind::PreviewLocal { master: "main".to_string(), skips: "x".to_string() };
    assert!(!requires_repo_check(&c));
    let p = params_for(c);
    assert!(!p.remote && p.dry_run && !p.force);
    assert_eq!(p.skips, strings(&["x"]));

    let c = CommandKind::CleanupLocal {
        force: false,
        master: "main".to_string(),
        skips: String::new(),
    };
    assert!(!requires_repo_check(&c));
    let p = params_for(c);
    assert!(!p.remote && !p.dry_run && !p.force);
    assert_eq!(p.skips, parse_skips(""));
}
