use kanidm_provision::watch::{
    readiness_step, watch_step, ReadinessAction, ReadinessEvent, WatchAction, WatchEvent, WatchPhase,
};

#[test]
fn readiness_decisions() {
    assert_eq!(readiness_step(ReadinessEvent::Terminated), ReadinessAction::Abort);
    assert_eq!(readiness_step(ReadinessEvent::Responded { success: true }), ReadinessAction::Ready);
    assert_eq!(readiness_step(ReadinessEvent::Responded { success: false }), ReadinessAction::RetryLater);
    assert_eq!(readiness_step(ReadinessEvent::RequestFailed), ReadinessAction::RetryLater);
}

#[test]
fn burst_then_quiet_reconciles_once() {
    let events = [
        WatchEvent::Changed,
        WatchEvent::Changed,
        WatchEvent::WatchFailed,
        WatchEvent::Changed,
        WatchEvent::QuietPeriodElapsed,
    ];
    let mut phase = WatchPhase::Watching;
    let mut actions = vec![];
    for e in events {
        let (p, a) = watch_step(phase, e);
        phase = p;
        actions.push(a);
    }
    assert_eq!(
        actions,
        vec![
            WatchAction::Wait,
            WatchAction::Wait,
            WatchAction::ReportError,
            WatchAction::Wait,
            WatchAction::Reconcile
        ]
    );
    assert_eq!(phase, WatchPhase::Watching);
}

#[test]
fn shutdown_in_any_phase() {
    for phase in [WatchPhase::Watching, WatchPhase::Debouncing] {
        assert_eq!(watch_step(phase, WatchEvent::Terminated).1, WatchAction::Shutdown);
        assert_eq!(watch_step(phase, WatchEvent::StreamEnded).1, WatchAction::Shutdown);
    }
}

#[test]
fn errors_while_watching_are_reported() {
    assert_eq!(
        watch_step(WatchPhase::Watching, WatchEvent::WatchFailed),
        (WatchPhase::Watching, WatchAction::ReportError)
    );
    assert_eq!(
        watch_step(WatchPhase::Watching, WatchEvent::QuietPeriodElapsed),
        (WatchPhase::Watching, WatchAction::Wait)
    );
}
