use tui_do_ui::models::Project;
use tui_do_ui::runtime::{
    again_code, depth_from, describe, longer_project, run_for, Launch, Pass, Run, SyncGate,
    Trigger, DELTA_AGAIN, FULL_AGAIN, NOTHING_AGAIN, PUSH_AGAIN,
};
use tui_do_ui::theme::ColorDepth;

fn a_project(id: i64, title: &str) -> Project {
    Project {
        id,
        title: title.to_string(),
        ..Project::default()
    }
}

#[test]
fn a_truncated_project_name_offers_the_whole_one() {
    let projects = vec![
        a_project(1, "Dinner Places"),
        a_project(2, "Legal"),
        a_project(3, "Life Admin"),
    ];
    assert_eq!(
        longer_project(&projects, "Dinner").as_deref(),
        Some("Dinner Places")
    );
    assert_eq!(
        longer_project(&projects, "dinner").as_deref(),
        Some("Dinner Places")
    );
    assert_eq!(longer_project(&projects, "Legal"), None);
    assert_eq!(longer_project(&projects, "Lif"), None);
}

#[test]
fn two_candidates_make_the_suggestion_a_guess_so_none_is_offered() {
    let projects = vec![a_project(1, "Dinner Places"), a_project(2, "Dinner Ideas")];
    assert_eq!(longer_project(&projects, "Dinner"), None);
}

#[test]
fn a_pseudo_project_is_never_suggested() {
    let projects = vec![a_project(-1, "Favorites Everything")];
    assert_eq!(longer_project(&projects, "Favorites"), None);
}

#[test]
fn a_full_pass_asked_for_mid_pass_outranks_a_push() {
    assert!(again_code(Pass::Full) > again_code(Pass::Delta));
    assert!(again_code(Pass::Delta) > again_code(Pass::Push));
    assert!(again_code(Pass::Push) > NOTHING_AGAIN);
}

#[test]
fn every_pass_asked_for_mid_pass_is_one_the_re_dispatch_knows() {
    for pass in [Pass::Push, Pass::Delta, Pass::Full] {
        let code = again_code(pass);
        assert!(
            matches!(code, PUSH_AGAIN | DELTA_AGAIN | FULL_AGAIN),
            "{pass:?} encodes to {code}, which the re-dispatch drops on the floor"
        );
    }
}

#[test]
fn a_pass_asked_for_while_one_runs_starts_when_it_ends() {
    let mut gate = SyncGate::new();
    assert_eq!(
        gate.request(Pass::Full, Trigger::Scheduled),
        Launch::Start(Pass::Full, Trigger::Scheduled)
    );
    assert_eq!(gate.request(Pass::Push, Trigger::Scheduled), Launch::Wait);
    assert_eq!(gate.request(Pass::Delta, Trigger::Asked), Launch::Wait);
    assert_eq!(gate.finished(), Launch::Start(Pass::Delta, Trigger::Asked));
    assert_eq!(gate.finished(), Launch::Wait);
    assert!(!gate.running);
}

#[test]
fn a_push_is_a_push_whoever_asked() {
    assert_eq!(run_for(Pass::Push, Trigger::Asked), Run::Push);
    assert_eq!(run_for(Pass::Full, Trigger::Scheduled), Run::Once);
    assert_eq!(run_for(Pass::Delta, Trigger::Asked), Run::AskedIncremental);
}

#[test]
fn the_colour_depth_follows_what_the_environment_says() {
    assert_eq!(depth_from(true, "truecolor", "xterm-256color"), ColorDepth::NoColor);
    assert_eq!(depth_from(false, "24bit", ""), ColorDepth::TrueColor);
    assert_eq!(depth_from(false, "", "xterm-kitty"), ColorDepth::Ansi256);
    assert_eq!(depth_from(false, "", "dumb"), ColorDepth::NoColor);
    assert_eq!(depth_from(false, "", ""), ColorDepth::NoColor);
    assert_eq!(depth_from(false, "", "xterm"), ColorDepth::Ansi16);
}

#[test]
fn the_cache_is_described_by_its_real_projects() {
    assert_eq!(
        describe(&vec![a_project(-1, "Favorites")]),
        "no projects at all; run tui-do once to sync, or check the server is reachable"
    );
    assert_eq!(
        describe(&vec![a_project(1, "Work"), a_project(2, "Home"), a_project(-2, "x")]),
        "2 projects; run tui-do to refresh the list"
    );
}
