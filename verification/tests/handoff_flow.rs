use codex_switch::config::{pick_local_data_dir, Config, ConfigError, FileConfig};
use codex_switch::handoff::{handoff_step, HandoffAction, HandoffEvent, HandoffPlan, HandoffState};
use codex_switch::sidecar::{launch_target, launch_wait_step, process_stem, Active, LaunchWait, LAUNCH_WAIT_MS};
use codex_switch::ui::codex_state;

fn plan(running: bool, yes: bool, dry_run: bool, no_relaunch: bool) -> HandoffPlan {
    HandoffPlan {
        thread_id: "t-1".to_string(),
        cwd: "/work/p".to_string(),
        provider: "zai".to_string(),
        model: "glm-5".to_string(),
        name: "[Z.ai glm-5] fix".to_string(),
        message: "続けてください".to_string(),
        running,
        yes,
        dry_run,
        no_relaunch,
    }
}

fn id(s: &str) -> String {
    s.to_string()
}

#[test]
fn a_dry_run_only_shows_the_plan() {
    let (st, act) = handoff_step(&plan(true, true, true, false), &HandoffState::Start, &HandoffEvent::Done);
    assert!(matches!(st, HandoffState::Done));
    assert!(matches!(act, HandoffAction::Stop));
}

#[test]
fn without_yes_the_user_is_asked_and_may_decline() {
    let p = plan(false, false, false, false);
    let (st, act) = handoff_step(&p, &HandoffState::Start, &HandoffEvent::Done);
    assert!(matches!(st, HandoffState::Confirming));
    assert!(matches!(act, HandoffAction::Confirm));
    let (st, act) = handoff_step(&p, &HandoffState::Confirming, &HandoffEvent::Declined);
    assert!(matches!(st, HandoffState::Done));
    assert!(matches!(act, HandoffAction::Stop));
    let (st, act) = handoff_step(&p, &HandoffState::Confirming, &HandoffEvent::Done);
    assert!(matches!(st, HandoffState::Copying));
    assert!(matches!(act, HandoffAction::CopyFiles));
}

#[test]
fn a_running_sidecar_must_quit_first_unless_it_is_not_relaunched() {
    let (st, act) = handoff_step(&plan(true, true, false, false), &HandoffState::Start, &HandoffEvent::Done);
    assert!(matches!(st, HandoffState::Quitting));
    assert!(matches!(act, HandoffAction::WaitForQuit));
    let (st, act) = handoff_step(&plan(true, true, false, true), &HandoffState::Start, &HandoffEvent::Done);
    assert!(matches!(st, HandoffState::Copying));
    assert!(matches!(act, HandoffAction::CopyFiles));
    let (st, act) = handoff_step(&plan(true, true, false, false), &HandoffState::Quitting, &HandoffEvent::Failed);
    assert!(matches!(st, HandoffState::Done));
    assert!(matches!(act, HandoffAction::Fail));
}

#[test]
fn the_fork_carries_the_source_thread_and_the_target() {
    let (st, act) = handoff_step(&plan(false, true, false, false), &HandoffState::Copying, &HandoffEvent::Done);
    assert!(matches!(st, HandoffState::Forking));
    match act {
        HandoffAction::Fork { thread_id, provider, model } => {
            assert_eq!((thread_id.as_str(), provider.as_str(), model.as_str()), ("t-1", "zai", "glm-5"));
        }
        _ => panic!("expected the fork"),
    }
}

#[test]
fn a_fork_reply_names_the_new_thread_then_starts_a_read_only_turn() {
    let p = plan(false, true, false, false);
    let (st, act) = handoff_step(&p, &HandoffState::Forking, &HandoffEvent::Forked(Some(id("t-2"))));
    match (&st, act) {
        (HandoffState::Naming { id }, HandoffAction::SetName { thread_id, name }) => {
            assert_eq!(id, "t-2");
            assert_eq!(thread_id, "t-2");
            assert_eq!(name, "[Z.ai glm-5] fix");
        }
        _ => panic!("expected the naming call"),
    }
    let (st, act) = handoff_step(&p, &st, &HandoffEvent::Done);
    match act {
        HandoffAction::StartTurn { thread_id, message, read_only } => {
            assert_eq!(thread_id, "t-2");
            assert_eq!(message, "続けてください");
            assert!(read_only);
        }
        _ => panic!("expected the first turn"),
    }
    let (st, act) = handoff_step(&p, &st, &HandoffEvent::Done);
    assert!(matches!(act, HandoffAction::WaitTurn { ref thread_id } if thread_id == "t-2"));
    let (st, act) = handoff_step(&p, &st, &HandoffEvent::TurnEnded(true));
    assert!(matches!(act, HandoffAction::CheckListed { ref thread_id } if thread_id == "t-2"));
    let (st, act) = handoff_step(&p, &st, &HandoffEvent::Done);
    match act {
        HandoffAction::Assign { thread_id, cwd } => {
            assert_eq!((thread_id.as_str(), cwd.as_str()), ("t-2", "/work/p"));
        }
        _ => panic!("expected the assignment"),
    }
    let (st, act) = handoff_step(&p, &st, &HandoffEvent::Done);
    assert!(matches!(act, HandoffAction::Relaunch { succeeded: true }));
    let (st, act) = handoff_step(&p, &st, &HandoffEvent::Done);
    assert!(matches!(st, HandoffState::Done));
    assert!(matches!(act, HandoffAction::Report { thread_id: Some(ref t) } if t == "t-2"));
}

#[test]
fn a_fork_reply_without_an_id_fails_and_relaunches_what_ran_before() {
    let (st, act) = handoff_step(&plan(false, true, false, false), &HandoffState::Forking, &HandoffEvent::Forked(None));
    assert!(matches!(st, HandoffState::Relaunching { id: None }));
    assert!(matches!(act, HandoffAction::Relaunch { succeeded: false }));
    let (st, act) = handoff_step(&plan(false, true, false, true), &HandoffState::Forking, &HandoffEvent::Forked(None));
    assert!(matches!(st, HandoffState::Done));
    assert!(matches!(act, HandoffAction::Report { thread_id: None }));
}

#[test]
fn without_relaunch_a_listed_thread_is_reported_and_not_assigned() {
    let p = plan(false, true, false, true);
    let (st, act) = handoff_step(&p, &HandoffState::Listing { id: id("t-3") }, &HandoffEvent::Done);
    assert!(matches!(st, HandoffState::Done));
    assert!(matches!(act, HandoffAction::Report { thread_id: Some(ref t) } if t == "t-3"));
}

#[test]
fn an_unfinished_turn_ends_the_handoff_as_failed() {
    let p = plan(false, true, false, false);
    let (_, act) = handoff_step(&p, &HandoffState::Turning { id: id("t-4") }, &HandoffEvent::TurnEnded(false));
    assert!(matches!(act, HandoffAction::Relaunch { succeeded: false }));
}

#[test]
fn the_codex_state_line() {
    assert_eq!(codex_state(Some("codex 1.2".to_string()), true, false), "codex 1.2");
    assert_eq!(codex_state(None, true, false), "未準備。初回の handoff でアプリから複製します");
    assert_eq!(codex_state(None, true, true), "実行できません");
    assert_eq!(codex_state(None, false, false), "実行できません");
}

#[test]
fn the_process_stem_falls_back_to_the_first_argument() {
    assert_eq!(process_stem(Some("codex-switch".to_string()), Some("x".to_string())), Some("codex-switch".to_string()));
    assert_eq!(process_stem(None, Some("codex-switch".to_string())), Some("codex-switch".to_string()));
    assert_eq!(process_stem(None, None), None);
}

#[test]
fn the_launch_wait_gives_up_after_thirty_seconds() {
    assert_eq!(LAUNCH_WAIT_MS, 30000);
    assert!(matches!(launch_wait_step(0, false), LaunchWait::Sleep(500)));
    assert!(matches!(launch_wait_step(1000, true), LaunchWait::Ready));
    assert!(matches!(launch_wait_step(29999, false), LaunchWait::Sleep(500)));
    assert!(matches!(launch_wait_step(30000, true), LaunchWait::GiveUp));
}

#[test]
fn the_local_data_dir_falls_back_to_home() {
    assert_eq!(pick_local_data_dir(Some("/d".to_string()), "/home/u"), "/d");
    assert_eq!(pick_local_data_dir(None, "/home/u"), "/home/u");
}

#[test]
fn launching_an_unknown_provider_names_it_and_the_known_ones() {
    let c = Config::load(FileConfig::empty(), "/home/u", "/home/u/.local/share", false);
    let act = Active { provider: "zai".to_string(), model: "m".to_string() };
    match launch_target(&c, &act, &Some("nope".to_string()), &None) {
        Err(ConfigError::UnknownProvider { name, known }) => {
            assert_eq!(name, "nope");
            assert_eq!(known, vec!["openrouter".to_string(), "zai".to_string()]);
        }
        Ok(_) => panic!("nope is not a provider"),
    }
}
