use vstd::prelude::*;

verus! {

/// Seconds to wait between two health checks while Kanidm is not ready.
pub const HEALTH_RETRY_SECONDS: u64 = 2;

/// Seconds without any ConfigMap event after which a burst of changes is
/// reconciled.
pub const QUIET_PERIOD_SECONDS: u64 = 2;

/// What happened while waiting for Kanidm to come up.
#[derive(Debug, Clone, Copy, PartialEq, Eq)]
pub enum ReadinessEvent {
    /// The process was asked to terminate.
    Terminated,
    /// The health endpoint answered; `success` tells whether with a 2xx status.
    Responded { success: bool },
    /// The health request failed without an answer.
    RequestFailed,
}

/// What to do next while waiting for Kanidm.
#[derive(Debug, Clone, Copy, PartialEq, Eq)]
pub enum ReadinessAction {
    /// Stop waiting and fail: the process is shutting down.
    Abort,
    /// Kanidm is ready.
    Ready,
    /// Wait a while and ask again.
    RetryLater,
}

/// Decides the next step of the wait for Kanidm: a termination request
/// aborts, a successful answer ends the wait, anything else retries.
pub fn readiness_step(event: ReadinessEvent) -> (r: ReadinessAction)
    ensures
        r == (match event {
            ReadinessEvent::Terminated => ReadinessAction::Abort,
            ReadinessEvent::Responded { success } => if success {
                ReadinessAction::Ready
            } else {
                ReadinessAction::RetryLater
            },
            ReadinessEvent::RequestFailed => ReadinessAction::RetryLater,
        }),
{
    match event {
        ReadinessEvent::Terminated => ReadinessAction::Abort,
        ReadinessEvent::Responded { success } => if success {
            ReadinessAction::Ready
        } else {
            ReadinessAction::RetryLater
        },
        ReadinessEvent::RequestFailed => ReadinessAction::RetryLater,
    }
}

/// Where the watch loop stands.
#[derive(Debug, Clone, Copy, PartialEq, Eq)]
pub enum WatchPhase {
    /// Waiting for the first change of a burst.
    Watching,
    /// A change was seen; waiting for a quiet period before reconciling.
    Debouncing,
}

/// What the watch loop observed.
#[derive(Debug, Clone, Copy, PartialEq, Eq)]
pub enum WatchEvent {
    /// The process was asked to terminate.
    Terminated,
    /// A watched ConfigMap changed.
    Changed,
    /// The watch reported an error.
    WatchFailed,
    /// The watch stream ended.
    StreamEnded,
    /// The quiet period passed without any event.
    QuietPeriodElapsed,
}

/// What the watch loop does next.
#[derive(Debug, Clone, Copy, PartialEq, Eq)]
pub enum WatchAction {
    /// Wait for the next event; while debouncing, the quiet period starts over.
    Wait,
    /// Report the watch error, then wait as for `Wait`.
    ReportError,
    /// Reconcile the whole state once.
    Reconcile,
    /// Stop watching.
    Shutdown,
}

/// One step of the watch loop.
pub open spec fn watch_transition(phase: WatchPhase, event: WatchEvent) -> (WatchPhase, WatchAction) {
    match event {
        WatchEvent::Terminated => (phase, WatchAction::Shutdown),
        WatchEvent::StreamEnded => (phase, WatchAction::Shutdown),
        WatchEvent::Changed => (WatchPhase::Debouncing, WatchAction::Wait),
        WatchEvent::WatchFailed => (phase, WatchAction::ReportError),
        WatchEvent::QuietPeriodElapsed => match phase {
            WatchPhase::Debouncing => (WatchPhase::Watching, WatchAction::Reconcile),
            WatchPhase::Watching => (WatchPhase::Watching, WatchAction::Wait),
        },
    }
}

/// Decides the watch loop's next step: termination or the end of the
/// stream shuts down, a change starts (or restarts) the quiet period, a
/// quiet period after changes reconciles once.
pub fn watch_step(phase: WatchPhase, event: WatchEvent) -> (r: (WatchPhase, WatchAction))
    ensures
        r == watch_transition(phase, event),
{
    match event {
        WatchEvent::Terminated => (phase, WatchAction::Shutdown),
        WatchEvent::StreamEnded => (phase, WatchAction::Shutdown),
        WatchEvent::Changed => (WatchPhase::Debouncing, WatchAction::Wait),
        WatchEvent::WatchFailed => (phase, WatchAction::ReportError),
        WatchEvent::QuietPeriodElapsed => match phase {
            WatchPhase::Debouncing => (WatchPhase::Watching, WatchAction::Reconcile),
            WatchPhase::Watching => (WatchPhase::Watching, WatchAction::Wait),
        },
    }
}

/// Runs the watch loop over a sequence of events: the final phase and the
/// actions taken, one per event.
pub open spec fn watch_run(phase: WatchPhase, events: Seq<WatchEvent>) -> (WatchPhase, Seq<WatchAction>)
    decreases events.len(),
{
    if events.len() == 0 {
        (phase, Seq::empty())
    } else {
        let (p, acts) = watch_run(phase, events.drop_last());
        let (q, a) = watch_transition(p, events.last());
        (q, acts.push(a))
    }
}

/// A burst: changes, possibly mixed with watch errors, starting with a change.
pub open spec fn is_burst(events: Seq<WatchEvent>) -> bool {
    &&& events.len() > 0
    &&& events[0] == WatchEvent::Changed
    &&& forall|i: int|
        0 <= i < events.len() ==> #[trigger] events[i] == WatchEvent::Changed || events[i]
            == WatchEvent::WatchFailed
}

proof fn lemma_burst_run(events: Seq<WatchEvent>)
    requires
        is_burst(events),
    ensures
        watch_run(WatchPhase::Watching, events).0 == WatchPhase::Debouncing,
        watch_run(WatchPhase::Watching, events).1.len() == events.len(),
        forall|i: int|
            0 <= i < events.len() ==> #[trigger] watch_run(WatchPhase::Watching, events).1[i]
                != WatchAction::Reconcile && watch_run(WatchPhase::Watching, events).1[i]
                != WatchAction::Shutdown,
    decreases events.len(),
{
    if events.len() > 1 {
        let e = events.drop_last();
        assert(e[0] == events[0]);
        assert forall|i: int| 0 <= i < e.len() implies #[trigger] e[i] == WatchEvent::Changed || e[i]
            == WatchEvent::WatchFailed by {
            assert(e[i] == events[i]);
        }
        lemma_burst_run(e);
        assert(events.last() == events[events.len() - 1]);
        let (p, acts) = watch_run(WatchPhase::Watching, e);
        let (q, a) = watch_transition(p, events.last());
        assert(watch_run(WatchPhase::Watching, events) == (q, acts.push(a)));
        assert(a != WatchAction::Reconcile && a != WatchAction::Shutdown);
        assert forall|i: int| 0 <= i < events.len() implies #[trigger] acts.push(a)[i]
            != WatchAction::Reconcile && acts.push(a)[i] != WatchAction::Shutdown by {
            if i < acts.len() {
                assert(acts.push(a)[i] == acts[i]);
            }
        }
    } else {
        let e = events.drop_last();
        assert(e.len() == 0);
        assert(watch_run(WatchPhase::Watching, e) == (WatchPhase::Watching, Seq::<WatchAction>::empty()));
        assert(events.last() == events[0]);
        let (q, a) = watch_transition(WatchPhase::Watching, events.last());
        assert(watch_run(WatchPhase::Watching, events) == (q, Seq::<WatchAction>::empty().push(a)));
    }
}

/// Debouncing: a burst of changes followed by a quiet period leads to
/// exactly one reconciliation, after the burst, and back to watching.
pub proof fn lemma_debounce_reconciles_once(events: Seq<WatchEvent>)
    requires
        is_burst(events),
    ensures
        ({
            let (p, acts) = watch_run(WatchPhase::Watching, events.push(WatchEvent::QuietPeriodElapsed));
            &&& p == WatchPhase::Watching
            &&& acts.len() == events.len() + 1
            &&& acts.last() == WatchAction::Reconcile
            &&& forall|i: int| 0 <= i < events.len() ==> #[trigger] acts[i] != WatchAction::Reconcile
        }),
{
    lemma_burst_run(events);
    let all = events.push(WatchEvent::QuietPeriodElapsed);
    assert(all.drop_last() =~= events);
}

/// The loop shuts down on termination or when the stream ends, whatever
/// phase it is in, and on nothing else.
pub proof fn lemma_watch_shutdown(phase: WatchPhase, event: WatchEvent)
    ensures
        (watch_transition(phase, event).1 == WatchAction::Shutdown) <==> (event
            == WatchEvent::Terminated || event == WatchEvent::StreamEnded),
{
}

/// The loop reconciles only at the end of a quiet period that follows a
/// change.
pub proof fn lemma_watch_reconciles_only_after_quiet(phase: WatchPhase, event: WatchEvent)
    ensures
        (watch_transition(phase, event).1 == WatchAction::Reconcile) <==> (phase
            == WatchPhase::Debouncing && event == WatchEvent::QuietPeriodElapsed),
{
}

} // verus!
