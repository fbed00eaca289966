use weztui::model::PaneInfo;
use weztui::restore::{plan_restore, OpKind, RestoreRun, RestoreStep, StepOutcome};
use weztui::session::{Session, SessionTab, SessionWindow, SplitDirection, SplitNode};

fn leaf(cwd: &str) -> SplitNode {
    SplitNode::Pane { cwd: Some(cwd.to_string()), title: "sh".to_string() }
}

fn sample_session() -> Session {
    Session {
        name: "dev".to_string(),
        saved_at: "2026-03-23T00:00:00Z".to_string(),
        windows: vec![
            SessionWindow { title: None, tabs: Vec::new() },
            SessionWindow {
                title: Some("Dev".to_string()),
                tabs: vec![
                    SessionTab {
                        title: Some("editor".to_string()),
                        root: SplitNode::Split {
                            direction: SplitDirection::Vertical,
                            percent: 70,
                            first: Box::new(leaf("/code")),
                            second: Box::new(leaf("/logs")),
                        },
                    },
                    SessionTab { title: None, root: leaf("/tmp") },
                ],
            },
        ],
    }
}

fn listed(pane: u64, window: u64) -> PaneInfo {
    PaneInfo {
        window_id: window,
        tab_id: 1,
        tab_title: None,
        window_title: None,
        pane_id: pane,
        workspace: None,
        title: String::new(),
        cwd: None,
        is_active: false,
        left: 0,
        top: 0,
        width: 1,
        height: 1,
    }
}

#[test]
fn plan_orders_window_tabs_and_splits() {
    let plan = plan_restore(&sample_session());
    assert_eq!(plan.len(), 6);
    assert_eq!(plan[0].kind, OpKind::SpawnWindow { cwd: Some("/code".to_string()) });
    assert_eq!((plan[0].label, plan[0].on_failure), (1, 6));
    assert_eq!(plan[1].kind, OpKind::FindWindow);
    assert_eq!(plan[2].kind, OpKind::SetWindowTitle { title: "Dev".to_string() });
    assert_eq!(plan[3].kind, OpKind::Split { direction: SplitDirection::Vertical, percent: 30, cwd: Some("/logs".to_string()) });
    assert_eq!((plan[3].pane_from, plan[3].on_failure), (0, 4));
    assert_eq!(plan[4].kind, OpKind::SetTabTitle { title: "editor".to_string() });
    assert_eq!(plan[5].kind, OpKind::SpawnTab { cwd: Some("/tmp".to_string()) });
    assert_eq!((plan[5].label, plan[5].on_failure), (1, 6));
}

#[test]
fn run_with_one_failed_title() {
    let mut run = RestoreRun::new(&sample_session());
    assert_eq!(run.step(), RestoreStep::SpawnWindow { cwd: Some("/code".to_string()) });
    run.record(StepOutcome::Pane(Ok(10)));
    assert_eq!(run.step(), RestoreStep::ListPanes);
    run.record(StepOutcome::Panes(Ok(vec![listed(9, 1), listed(10, 3)])));
    assert_eq!(run.step(), RestoreStep::SetWindowTitle { pane_id: 10, title: "Dev".to_string() });
    run.record(StepOutcome::Titled(Ok(())));
    assert_eq!(
        run.step(),
        RestoreStep::Split { pane_id: 10, direction: SplitDirection::Vertical, percent: 30, cwd: Some("/logs".to_string()) }
    );
    run.record(StepOutcome::Pane(Ok(11)));
    assert_eq!(run.step(), RestoreStep::SetTabTitle { pane_id: 10, title: "editor".to_string() });
    run.record(StepOutcome::Titled(Err("x".to_string())));
    assert_eq!(run.step(), RestoreStep::SpawnTab { window_id: 3, cwd: Some("/tmp".to_string()) });
    run.record(StepOutcome::Pane(Ok(12)));
    assert!(run.is_done());
    assert_eq!(run.step(), RestoreStep::Done);
    let report = run.report();
    assert_eq!((report.windows_created, report.tabs_created, report.panes_created), (1, 2, 3));
    assert_eq!(report.errors, vec!["Tab 0: set title failed: x".to_string()]);
}

#[test]
fn failures_skip_what_depends_on_them() {
    let mut run = RestoreRun::new(&sample_session());
    run.record(StepOutcome::Pane(Err("boom".to_string())));
    assert!(run.is_done());
    assert_eq!(run.report().errors, vec!["Window 1: spawn failed: boom".to_string()]);

    let mut run = RestoreRun::new(&sample_session());
    run.record(StepOutcome::Pane(Ok(10)));
    run.record(StepOutcome::Panes(Ok(vec![listed(9, 1)])));
    assert!(run.is_done());
    assert_eq!(run.report().errors, vec!["Window 1: could not discover window_id".to_string()]);

    let mut run = RestoreRun::new(&sample_session());
    run.record(StepOutcome::Pane(Ok(10)));
    run.record(StepOutcome::Panes(Ok(vec![listed(10, 3)])));
    run.record(StepOutcome::Titled(Err("t".to_string())));
    run.record(StepOutcome::Pane(Err("s".to_string())));
    assert_eq!(run.step(), RestoreStep::SetTabTitle { pane_id: 10, title: "editor".to_string() });
    run.record(StepOutcome::Titled(Ok(())));
    run.record(StepOutcome::Pane(Err("n".to_string())));
    let report = run.report();
    assert_eq!((report.windows_created, report.tabs_created, report.panes_created), (1, 1, 1));
    assert_eq!(
        report.errors,
        vec!["Window 1: set title failed: t".to_string(), "split failed: s".to_string(), "Tab 1: spawn failed: n".to_string()]
    );
}

#[test]
fn restore_without_failures_creates_the_saved_layout() {
    let session = sample_session();
    let mut run = RestoreRun::new(&session);
    let mut next_pane = 20u64;
    while !run.is_done() {
        let outcome = match run.step() {
            RestoreStep::SpawnWindow { .. } | RestoreStep::SpawnTab { .. } | RestoreStep::Split { .. } => {
                next_pane += 1;
                StepOutcome::Pane(Ok(next_pane))
            }
            RestoreStep::ListPanes => StepOutcome::Panes(Ok(vec![listed(21, 5)])),
            RestoreStep::SetWindowTitle { .. } | RestoreStep::SetTabTitle { .. } => StepOutcome::Titled(Ok(())),
            RestoreStep::Done => break,
        };
        run.record(outcome);
    }
    let report = run.report();
    // One window with tabs, two tabs, three saved panes.
    assert_eq!((report.windows_created, report.tabs_created, report.panes_created), (1, 2, 3));
    assert!(report.errors.is_empty());
}
