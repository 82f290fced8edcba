use atm::builder::{PlanAction, PlanBuilder, PlanEvent, PlanFailure};
use atm::manifest::TopicManifest;
use atm::pk::{PkError, PkPackage, PkProgress};
use atm::progress::{select_best_tracker, BestTracker, DummyTracker, ProgressTracker};
use atm::transaction::{PkDisplayProgress, TxDrain, TxError, TxMode, TxSignal, TxStep};

fn pkg(info: u32, id: &str) -> PkPackage {
    PkPackage {
        info,
        package_id: id.to_string(),
        summary: "s".to_string(),
    }
}

#[test]
fn collect_keeps_packages_until_finished() {
    let mut d = TxDrain::new(TxMode::Collect);
    assert!(matches!(d.step(TxSignal::Package(pkg(12, "a;1;amd64;x"))), TxStep::Continue));
    assert!(matches!(d.step(TxSignal::Other), TxStep::Continue));
    assert!(matches!(d.step(TxSignal::Package(pkg(11, "b;1;amd64;x"))), TxStep::Continue));
    assert!(d.is_running());
    assert!(matches!(d.step(TxSignal::Finished), TxStep::Finish(None)));
    assert!(!d.is_running());
    let ids: Vec<String> = d.into_packages().into_iter().map(|p| p.package_id).collect();
    assert_eq!(ids, vec!["a;1;amd64;x".to_string(), "b;1;amd64;x".to_string()]);
}

#[test]
fn wait_ignores_packages() {
    let mut d = TxDrain::new(TxMode::Wait);
    assert!(matches!(d.step(TxSignal::Package(pkg(12, "a;1;amd64;x"))), TxStep::Continue));
    assert!(matches!(d.step(TxSignal::Destroy), TxStep::Finish(None)));
    assert!(d.into_packages().is_empty());
}

#[test]
fn error_code_fails_at_once() {
    let mut d = TxDrain::new(TxMode::Collect);
    let step = d.step(TxSignal::ErrorCode(PkError {
        code: 7,
        details: "no network".to_string(),
    }));
    match step {
        TxStep::Fail(TxError::Daemon(code, details)) => {
            assert_eq!(code, 7);
            assert_eq!(details, "no network");
        }
        _ => panic!("expected a failure"),
    }
    assert!(!d.is_running());
}

#[test]
fn execute_forwards_progress_and_ends_with_done() {
    let mut d = TxDrain::new(TxMode::Execute);
    match d.step(TxSignal::ItemProgress(PkProgress {
        id: "a;1;amd64;x".to_string(),
        status: 9,
        percentage: 40,
    })) {
        TxStep::Forward(PkDisplayProgress::Package(id, status, pct)) => {
            assert_eq!(id, "a;1;amd64;x");
            assert_eq!(status, 9);
            assert_eq!(pct, 40);
        }
        _ => panic!("expected item progress"),
    }
    assert!(matches!(
        d.step(TxSignal::Percentage(100)),
        TxStep::Forward(PkDisplayProgress::Overall(100))
    ));
    assert!(matches!(d.step(TxSignal::Percentage(101)), TxStep::Continue));
    assert!(matches!(
        d.step(TxSignal::Finished),
        TxStep::Finish(Some(PkDisplayProgress::Done))
    ));
}

#[test]
fn collect_does_not_forward_progress() {
    let mut d = TxDrain::new(TxMode::Collect);
    assert!(matches!(d.step(TxSignal::Percentage(50)), TxStep::Continue));
}

#[test]
fn failed_poll_means_daemon_lost() {
    let mut d = TxDrain::new(TxMode::Execute);
    match d.step(TxSignal::PollFailed("gone".to_string())) {
        TxStep::Fail(TxError::DaemonLost(m)) => assert_eq!(m, "gone"),
        _ => panic!("expected a failure"),
    }
}

fn closing(name: &str, packages: &[&str]) -> TopicManifest {
    TopicManifest {
        enabled: false,
        closed: true,
        name: name.to_string(),
        description: None,
        date: 0,
        arch: vec![],
        packages: packages.iter().map(|p| p.to_string()).collect(),
    }
}

#[test]
fn plan_without_closing_topics_is_empty() {
    let (b, action) = PlanBuilder::new(vec![]);
    assert!(!b.is_waiting());
    match action {
        PlanAction::Finished(h, s) => assert!(h.is_empty() && s.is_empty()),
        _ => panic!("expected an empty plan"),
    }
}

#[test]
fn plan_runs_refresh_resolve_updates_simulate() {
    let (mut b, action) = PlanBuilder::new(vec![closing("t", &["a", "b", "c"])]);
    assert!(matches!(action, PlanAction::RefreshCache));
    let action = b.step(PlanEvent::Refreshed(vec!["a".to_string(), "c".to_string()]));
    match &action {
        PlanAction::Resolve(names) => assert_eq!(names, &vec!["a".to_string(), "c".to_string()]),
        _ => panic!("expected resolve"),
    }
    let action = b.step(PlanEvent::Resolved(vec![pkg(2, "a;1;amd64;aosc-stable-main")]));
    assert!(matches!(action, PlanAction::GetUpdates));
    let action = b.step(PlanEvent::Updates(vec![pkg(11, "u;2;amd64;aosc-stable-main")]));
    match &action {
        PlanAction::Simulate(ids) => assert_eq!(
            ids,
            &vec![
                "a;1;amd64;aosc-stable-main".to_string(),
                "u;2;amd64;aosc-stable-main".to_string()
            ]
        ),
        _ => panic!("expected simulate"),
    }
    let action = b.step(PlanEvent::Simulated(vec![pkg(20, "a;1;amd64;aosc-stable-main")]));
    match action {
        PlanAction::Finished(hold, steps) => {
            assert_eq!(hold, vec!["c".to_string()]);
            assert_eq!(steps.len(), 1);
        }
        _ => panic!("expected a plan"),
    }
    assert!(!b.is_waiting());
}

#[test]
fn plan_skips_resolve_and_simulation_when_nothing_is_left() {
    let (mut b, _) = PlanBuilder::new(vec![closing("t", &["a"])]);
    assert!(matches!(b.step(PlanEvent::Refreshed(vec![])), PlanAction::GetUpdates));
    match b.step(PlanEvent::Updates(vec![])) {
        PlanAction::Finished(h, s) => assert!(h.is_empty() && s.is_empty()),
        _ => panic!("expected an empty plan"),
    }
}

#[test]
fn plan_fails_on_transaction_error_and_out_of_order() {
    let (mut b, _) = PlanBuilder::new(vec![closing("t", &["a"])]);
    assert!(matches!(
        b.step(PlanEvent::TxFailed(TxError::Daemon(1, "x".to_string()))),
        PlanAction::Failed(PlanFailure::Transaction(_))
    ));
    let (mut b, _) = PlanBuilder::new(vec![closing("t", &["a"])]);
    assert!(matches!(
        b.step(PlanEvent::Simulated(vec![])),
        PlanAction::Failed(PlanFailure::OutOfOrder)
    ));
}

#[test]
fn plan_fails_on_malformed_candidate() {
    let (mut b, _) = PlanBuilder::new(vec![closing("t", &["a"])]);
    b.step(PlanEvent::Refreshed(vec!["a".to_string()]));
    assert!(matches!(
        b.step(PlanEvent::Resolved(vec![pkg(2, "bad")])),
        PlanAction::Failed(PlanFailure::Plan(_))
    ));
}

struct Counting(u32);

impl ProgressTracker for Counting {
    fn set_percent(&mut self, percent: u32) {
        self.0 = percent;
    }
    fn set_general_description(&mut self, _: &str) {}
    fn set_message(&mut self, _: &str, _: &str) {}
    fn terminate(&mut self, _: &str) {}
}

#[test]
fn best_tracker_prefers_desktop() {
    let mut t = select_best_tracker(Some(Counting(0)));
    t.set_percent(30);
    match t {
        BestTracker::Desktop(c) => assert_eq!(c.0, 30),
        BestTracker::Dummy(_) => panic!("expected the desktop tracker"),
    }
    let mut d = select_best_tracker::<Counting>(None);
    d.set_percent(10);
    assert!(matches!(d, BestTracker::Dummy(_)));
    let mut dummy = DummyTracker::new();
    dummy.terminate("");
}
