//! The course of a search run, as its coordinator sees it.

use vstd::prelude::*;
use crate::batch::BatchPattern;
use crate::parse::ConfigError;

verus! {

/// Where a run stands.
#[derive(Clone, Copy, Debug, PartialEq, Eq, Structural)]
pub enum RunPhase {
    /// The targets are being validated; no worker runs yet.
    Initializing,
    /// The workers and the progress reporter run.
    Running,
    /// Every target is complete; the workers are leaving their loops.
    Draining,
    /// Every worker has ended after the targets were complete.
    Completed,
    /// A worker or the reporter ended abnormally: the run did not complete
    /// as requested.
    Aborted,
}

/// What the coordinator learns.
#[derive(Clone, Copy, Debug, PartialEq, Eq, Structural)]
pub enum RunEvent {
    /// The workers and the reporter were started.
    Started,
    /// Every target was seen complete.
    TargetsComplete,
    /// Every worker was joined.
    WorkersJoined,
    /// A worker or the reporter ended abnormally.
    ThreadFaulted,
}

/// Some target asks for at least one key.
pub open spec fn runnable(targets: Seq<BatchPattern>) -> bool {
    exists|i: int| 0 <= i < targets.len() && (#[trigger] targets[i]).target_count > 0
}

/// The phase after an event. A fault aborts a run that has started and has
/// not ended; an event that does not fit the phase changes nothing.
pub open spec fn next_phase_spec(phase: RunPhase, event: RunEvent) -> RunPhase {
    match (phase, event) {
        (RunPhase::Initializing, RunEvent::Started) => RunPhase::Running,
        (RunPhase::Running, RunEvent::TargetsComplete) => RunPhase::Draining,
        (RunPhase::Draining, RunEvent::WorkersJoined) => RunPhase::Completed,
        (RunPhase::Running, RunEvent::ThreadFaulted) => RunPhase::Aborted,
        (RunPhase::Draining, RunEvent::ThreadFaulted) => RunPhase::Aborted,
        _ => phase,
    }
}

/// The phase that a course of events leads to from `phase`.
pub open spec fn phase_after(phase: RunPhase, events: Seq<RunEvent>) -> RunPhase
    decreases events.len(),
{
    if events.len() == 0 {
        phase
    } else {
        next_phase_spec(phase_after(phase, events.drop_last()), events.last())
    }
}

impl RunPhase {
    /// The run has ended, well or not.
    pub open spec fn ended(&self) -> bool {
        *self == RunPhase::Completed || *self == RunPhase::Aborted
    }

    /// Whether the run has ended, well or not.
    pub fn is_ended(&self) -> (r: bool)
        ensures
            r == self.ended(),
    {
        match self {
            RunPhase::Completed => true,
            RunPhase::Aborted => true,
            _ => false,
        }
    }
}

/// Validates the targets of a run before any worker is started: at least
/// one target has to ask for a key.
pub fn validate_batch(targets: &[BatchPattern]) -> (r: Result<(), ConfigError>)
    ensures
        r is Ok <==> runnable(targets@),
        r is Err ==> r == Err::<(), ConfigError>(ConfigError::NoTargets),
{
    let n: usize = targets.len();
    let mut i: usize = 0;
    while i < n
        invariant
            n == targets@.len(),
            i <= n,
            forall|j: int| 0 <= j < i ==> (#[trigger] targets@[j]).target_count == 0,
        decreases n - i,
    {
        if targets[i].target_count > 0 {
            return Ok(());
        }
        i += 1;
    }
    Err(ConfigError::NoTargets)
}

/// The phase after an event.
pub fn next_phase(phase: RunPhase, event: RunEvent) -> (r: RunPhase)
    ensures
        r == next_phase_spec(phase, event),
{
    match (phase, event) {
        (RunPhase::Initializing, RunEvent::Started) => RunPhase::Running,
        (RunPhase::Running, RunEvent::TargetsComplete) => RunPhase::Draining,
        (RunPhase::Draining, RunEvent::WorkersJoined) => RunPhase::Completed,
        (RunPhase::Running, RunEvent::ThreadFaulted) => RunPhase::Aborted,
        (RunPhase::Draining, RunEvent::ThreadFaulted) => RunPhase::Aborted,
        _ => phase,
    }
}

/// A run that has ended stays as it ended, whatever comes after.
pub proof fn lemma_ended_is_final(phase: RunPhase, events: Seq<RunEvent>)
    requires
        phase.ended(),
    ensures
        phase_after(phase, events) == phase,
    decreases events.len(),
{
    if events.len() > 0 {
        lemma_ended_is_final(phase, events.drop_last());
    }
}

/// A run completes only by draining: it was started, every target was seen
/// complete, the workers were joined after that, and no thread faulted
/// meanwhile.
pub proof fn lemma_completed_run(events: Seq<RunEvent>)
    requires
        phase_after(RunPhase::Initializing, events) == RunPhase::Completed,
    ensures
        exists|s: int, c: int, j: int|
            0 <= s < c < j < events.len() && events[s] == RunEvent::Started && events[c]
                == RunEvent::TargetsComplete && events[j] == RunEvent::WorkersJoined,
        forall|k: int|
            0 <= k < events.len() && events[k] == RunEvent::ThreadFaulted ==> phase_after(
                RunPhase::Initializing,
                events.take(k),
            ) == RunPhase::Initializing || phase_after(RunPhase::Initializing, events.take(k))
                == RunPhase::Completed,
{
    lemma_course(events);
    assert forall|k: int|
        0 <= k < events.len() && events[k] == RunEvent::ThreadFaulted implies phase_after(
        RunPhase::Initializing,
        events.take(k),
    ) == RunPhase::Initializing || phase_after(RunPhase::Initializing, events.take(k))
        == RunPhase::Completed by {
        let before = phase_after(RunPhase::Initializing, events.take(k));
        assert(events.take(k + 1).drop_last() =~= events.take(k));
        let after = phase_after(RunPhase::Initializing, events.take(k + 1));
        if before == RunPhase::Running || before == RunPhase::Draining {
            assert(after == RunPhase::Aborted);
            lemma_split(RunPhase::Initializing, events, k + 1);
            lemma_ended_is_final(RunPhase::Aborted, events.skip(k + 1));
        } else if before == RunPhase::Aborted {
            lemma_split(RunPhase::Initializing, events, k);
            lemma_ended_is_final(RunPhase::Aborted, events.skip(k));
        }
    }
}

/// A course of events can be taken in two parts.
proof fn lemma_split(phase: RunPhase, events: Seq<RunEvent>, k: int)
    requires
        0 <= k <= events.len(),
    ensures
        phase_after(phase, events) == phase_after(
            phase_after(phase, events.take(k)),
            events.skip(k),
        ),
    decreases events.len() - k,
{
    if k == events.len() {
        assert(events.take(k) =~= events);
        assert(events.skip(k) =~= Seq::<RunEvent>::empty());
    } else {
        lemma_split(phase, events.drop_last(), k);
        assert(events.drop_last().take(k) =~= events.take(k));
        assert(events.drop_last().skip(k) =~= events.skip(k).drop_last());
    }
}

/// What a phase says of the events that led to it from the start.
proof fn lemma_course(events: Seq<RunEvent>)
    ensures
        ({
            let phase = phase_after(RunPhase::Initializing, events);
            &&& (phase == RunPhase::Running || phase == RunPhase::Draining || phase
                == RunPhase::Completed) ==> exists|s: int|
                0 <= s < events.len() && events[s] == RunEvent::Started && started_at(events, s)
            &&& (phase == RunPhase::Draining || phase == RunPhase::Completed) ==> exists|
                s: int,
                c: int,
            |
                0 <= s < c < events.len() && events[s] == RunEvent::Started && events[c]
                    == RunEvent::TargetsComplete && drained_at(events, c)
            &&& phase == RunPhase::Completed ==> exists|s: int, c: int, j: int|
                0 <= s < c < j < events.len() && events[s] == RunEvent::Started && events[c]
                    == RunEvent::TargetsComplete && events[j] == RunEvent::WorkersJoined
        }),
    decreases events.len(),
{
    if events.len() > 0 {
        let earlier = events.drop_last();
        let before = phase_after(RunPhase::Initializing, earlier);
        let phase = phase_after(RunPhase::Initializing, events);
        let last = events.len() - 1;
        lemma_course(earlier);
        assert(earlier =~= events.take(last));
        if phase == RunPhase::Running || phase == RunPhase::Draining || phase
            == RunPhase::Completed {
            if before == RunPhase::Initializing {
                assert(events[last] == RunEvent::Started);
                assert(started_at(events, last));
            } else {
                let s = choose|s: int|
                    0 <= s < earlier.len() && earlier[s] == RunEvent::Started && started_at(
                        earlier,
                        s,
                    );
                assert(events.take(s) =~= earlier.take(s));
                assert(events[s] == RunEvent::Started && started_at(events, s));
            }
        }
        if phase == RunPhase::Draining || phase == RunPhase::Completed {
            if before == RunPhase::Running {
                let s = choose|s: int|
                    0 <= s < earlier.len() && earlier[s] == RunEvent::Started && started_at(
                        earlier,
                        s,
                    );
                assert(events[s] == RunEvent::Started);
                assert(events[last] == RunEvent::TargetsComplete);
                assert(drained_at(events, last));
            } else {
                let (s, c) = choose|s: int, c: int|
                    0 <= s < c < earlier.len() && earlier[s] == RunEvent::Started && earlier[c]
                        == RunEvent::TargetsComplete && drained_at(earlier, c);
                assert(events.take(c) =~= earlier.take(c));
                assert(events[s] == RunEvent::Started && events[c] == RunEvent::TargetsComplete
                    && drained_at(events, c));
            }
        }
        if phase == RunPhase::Completed {
            if before == RunPhase::Draining {
                let (s, c) = choose|s: int, c: int|
                    0 <= s < c < earlier.len() && earlier[s] == RunEvent::Started && earlier[c]
                        == RunEvent::TargetsComplete && drained_at(earlier, c);
                assert(events[s] == RunEvent::Started && events[c] == RunEvent::TargetsComplete
                    && events[last] == RunEvent::WorkersJoined);
            } else {
                let (s, c, j) = choose|s: int, c: int, j: int|
                    0 <= s < c < j < earlier.len() && earlier[s] == RunEvent::Started
                        && earlier[c] == RunEvent::TargetsComplete && earlier[j]
                        == RunEvent::WorkersJoined;
                assert(events[s] == RunEvent::Started && events[c] == RunEvent::TargetsComplete
                    && events[j] == RunEvent::WorkersJoined);
            }
        }
    }
}

/// The event at `s` is the one that started the run.
spec fn started_at(events: Seq<RunEvent>, s: int) -> bool {
    phase_after(RunPhase::Initializing, events.take(s)) == RunPhase::Initializing
}

/// The event at `c` is the one that set the run to draining.
spec fn drained_at(events: Seq<RunEvent>, c: int) -> bool {
    phase_after(RunPhase::Initializing, events.take(c)) == RunPhase::Running
}

} // verus!
