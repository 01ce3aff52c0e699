//! Apply-and-verify engine: the decision core of applying a freshly
//! written rule. The caller runs the subprocesses and filesystem checks;
//! this state machine decides, from each reported result, what to do next:
//! reload the rule definitions first, then re-trigger add actions for the
//! USB subsystem, then — when a symlink is expected — poll for its device
//! node a bounded number of times. A command that exits non-zero is a hard
//! failure; exhausting the poll budget is only a warning, because the
//! reload and trigger already succeeded.

use vstd::prelude::*;

verus! {

/// How many times the device node is polled before giving up.
pub const POLL_ATTEMPTS: u64 = 20;

/// How long the caller sleeps between two polls, in milliseconds.
pub const POLL_INTERVAL_MS: u64 = 100;

/// How an apply run ends.
#[derive(Clone, Copy, PartialEq, Eq, Structural, Debug)]
pub enum ApplyOutcome {
    /// Reload and trigger succeeded; no symlink was expected.
    Applied,
    /// The expected device node appeared.
    SymlinkVerified,
    /// The node did not appear within the poll budget: a warning, not an
    /// error — the device may need a physical replug or a longer settle.
    SymlinkTimeout,
    /// The reload command exited non-zero.
    ReloadFailed,
    /// The trigger command exited non-zero.
    TriggerFailed,
}

/// The outcomes that are hard failures.
pub open spec fn outcome_is_error(o: ApplyOutcome) -> bool {
    o == ApplyOutcome::ReloadFailed || o == ApplyOutcome::TriggerFailed
}

/// The outcome that is only a warning.
pub open spec fn outcome_is_warning(o: ApplyOutcome) -> bool {
    o == ApplyOutcome::SymlinkTimeout
}

/// What the engine waits for.
#[derive(Clone, Copy, PartialEq, Eq, Structural, Debug)]
pub enum EngineState {
    /// The reload command has not been run yet.
    AwaitingReload,
    /// Reload succeeded; the trigger command has not been run yet.
    AwaitingTrigger,
    /// Both commands succeeded; this many node checks are left.
    Polling { remaining: u64 },
    /// The run is over.
    Finished { outcome: ApplyOutcome },
}

/// What the caller must do next.
#[derive(Clone, Copy, PartialEq, Eq, Structural, Debug)]
pub enum ApplyAction {
    /// Run the reload-rule-definitions command and report its exit.
    RunReload,
    /// Run the trigger-add-actions command and report its exit.
    RunTrigger,
    /// Check whether the expected device node exists and report it,
    /// sleeping one poll interval after a failed check.
    CheckNode,
    /// Nothing is left to do; this is the outcome.
    Report { outcome: ApplyOutcome },
}

/// What the caller reports back.
#[derive(Clone, Copy, PartialEq, Eq, Structural, Debug)]
pub enum ApplyEvent {
    /// The reload command exited; `true` means success.
    ReloadExit(bool),
    /// The trigger command exited; `true` means success.
    TriggerExit(bool),
    /// The node was checked; `true` means it exists.
    NodeCheck(bool),
}

/// Whether `ev` is the event the state waits for.
pub open spec fn event_matches(st: EngineState, ev: ApplyEvent) -> bool {
    match (st, ev) {
        (EngineState::AwaitingReload, ApplyEvent::ReloadExit(_)) => true,
        (EngineState::AwaitingTrigger, ApplyEvent::TriggerExit(_)) => true,
        (EngineState::Polling { .. }, ApplyEvent::NodeCheck(_)) => true,
        _ => false,
    }
}

/// The transition relation: reload before trigger, then bounded polling.
pub open spec fn spec_step(st: EngineState, has_symlink: bool, ev: ApplyEvent) -> EngineState {
    match (st, ev) {
        (EngineState::AwaitingReload, ApplyEvent::ReloadExit(ok)) => {
            if ok {
                EngineState::AwaitingTrigger
            } else {
                EngineState::Finished { outcome: ApplyOutcome::ReloadFailed }
            }
        },
        (EngineState::AwaitingTrigger, ApplyEvent::TriggerExit(ok)) => {
            if !ok {
                EngineState::Finished { outcome: ApplyOutcome::TriggerFailed }
            } else if has_symlink {
                EngineState::Polling { remaining: POLL_ATTEMPTS }
            } else {
                EngineState::Finished { outcome: ApplyOutcome::Applied }
            }
        },
        (EngineState::Polling { remaining }, ApplyEvent::NodeCheck(found)) => {
            if found {
                EngineState::Finished { outcome: ApplyOutcome::SymlinkVerified }
            } else if remaining <= 1 {
                EngineState::Finished { outcome: ApplyOutcome::SymlinkTimeout }
            } else {
                EngineState::Polling { remaining: (remaining - 1) as u64 }
            }
        },
        _ => st,
    }
}

/// The state after feeding a whole sequence of events.
pub open spec fn run_events(st: EngineState, has_symlink: bool, evs: Seq<ApplyEvent>) -> EngineState
    decreases evs.len(),
{
    if evs.len() == 0 {
        st
    } else {
        run_events(spec_step(st, has_symlink, evs[0]), has_symlink, evs.drop_first())
    }
}

/// The engine driving one apply run.
pub struct ApplyEngine {
    /// The symlink name whose device node confirms the rule, if one is
    /// expected.
    pub expected_symlink: Option<String>,
    /// What the engine waits for.
    pub state: EngineState,
}

impl ApplyEngine {
    /// Whether a device node is expected at all.
    pub open spec fn has_symlink(&self) -> bool {
        self.expected_symlink is Some
    }

    /// Start an apply run, beginning with the reload command.
    pub fn new(expected_symlink: Option<String>) -> (e: ApplyEngine)
        ensures
            e.state == EngineState::AwaitingReload,
            e.expected_symlink == expected_symlink,
    {
        ApplyEngine { expected_symlink, state: EngineState::AwaitingReload }
    }

    /// What the caller must do next in the current state.
    pub fn next_action(&self) -> (a: ApplyAction)
        ensures
            a == (match self.state {
                EngineState::AwaitingReload => ApplyAction::RunReload,
                EngineState::AwaitingTrigger => ApplyAction::RunTrigger,
                EngineState::Polling { .. } => ApplyAction::CheckNode,
                EngineState::Finished { outcome } => ApplyAction::Report { outcome },
            }),
    {
        match self.state {
            EngineState::AwaitingReload => ApplyAction::RunReload,
            EngineState::AwaitingTrigger => ApplyAction::RunTrigger,
            EngineState::Polling { .. } => ApplyAction::CheckNode,
            EngineState::Finished { outcome } => ApplyAction::Report { outcome },
        }
    }

    /// Feed the result of the action back; the state advances by one
    /// transition.
    pub fn on_event(&mut self, ev: ApplyEvent)
        requires
            event_matches(old(self).state, ev),
        ensures
            final(self).state == spec_step(old(self).state, old(self).has_symlink(), ev),
            final(self).expected_symlink == old(self).expected_symlink,
    {
        let has = self.expected_symlink.is_some();
        let next = match (self.state, ev) {
            (EngineState::AwaitingReload, ApplyEvent::ReloadExit(ok)) => {
                if ok {
                    EngineState::AwaitingTrigger
                } else {
                    EngineState::Finished { outcome: ApplyOutcome::ReloadFailed }
                }
            },
            (EngineState::AwaitingTrigger, ApplyEvent::TriggerExit(ok)) => {
                if !ok {
                    EngineState::Finished { outcome: ApplyOutcome::TriggerFailed }
                } else if has {
                    EngineState::Polling { remaining: POLL_ATTEMPTS }
                } else {
                    EngineState::Finished { outcome: ApplyOutcome::Applied }
                }
            },
            (EngineState::Polling { remaining }, ApplyEvent::NodeCheck(found)) => {
                if found {
                    EngineState::Finished { outcome: ApplyOutcome::SymlinkVerified }
                } else if remaining <= 1 {
                    EngineState::Finished { outcome: ApplyOutcome::SymlinkTimeout }
                } else {
                    EngineState::Polling { remaining: remaining - 1 }
                }
            },
            (st, _) => st,
        };
        self.state = next;
    }

    /// Whether this outcome ends the run with an error.
    pub fn outcome_error(o: &ApplyOutcome) -> (r: bool)
        ensures
            r == outcome_is_error(*o),
    {
        match o {
            ApplyOutcome::ReloadFailed => true,
            ApplyOutcome::TriggerFailed => true,
            _ => false,
        }
    }
}

proof fn lemma_polling_exhausts(r: u64, has_symlink: bool, evs: Seq<ApplyEvent>)
    requires
        1 <= r,
        evs.len() == r,
        forall|i: int| 0 <= i < evs.len() ==> evs[i] == ApplyEvent::NodeCheck(false),
    ensures
        run_events(EngineState::Polling { remaining: r }, has_symlink, evs) == (
        EngineState::Finished { outcome: ApplyOutcome::SymlinkTimeout }),
    decreases r,
{
    assert(evs[0] == ApplyEvent::NodeCheck(false));
    let st0 = EngineState::Polling { remaining: r };
    let st1 = spec_step(st0, has_symlink, evs[0]);
    assert(run_events(st0, has_symlink, evs) == run_events(st1, has_symlink, evs.drop_first()));
    if r == 1 {
        assert(st1 == (EngineState::Finished { outcome: ApplyOutcome::SymlinkTimeout }));
        assert(evs.drop_first().len() == 0);
    } else {
        assert(st1 == (EngineState::Polling { remaining: (r - 1) as u64 }));
        assert forall|i: int| 0 <= i < evs.drop_first().len() implies evs.drop_first()[i]
            == ApplyEvent::NodeCheck(false) by {
            assert(evs.drop_first()[i] == evs[i + 1]);
        }
        lemma_polling_exhausts((r - 1) as u64, has_symlink, evs.drop_first());
    }
}

/// A run whose reload and trigger succeed but whose expected device node
/// never appears within the poll budget ends in the timeout outcome: a
/// warning, not an error.
pub proof fn lemma_timeout_is_warning(checks: Seq<ApplyEvent>)
    requires
        checks.len() == POLL_ATTEMPTS,
        forall|i: int| 0 <= i < checks.len() ==> checks[i] == ApplyEvent::NodeCheck(false),
    ensures
        run_events(
            EngineState::AwaitingReload,
            true,
            seq![ApplyEvent::ReloadExit(true), ApplyEvent::TriggerExit(true)] + checks,
        ) == (EngineState::Finished { outcome: ApplyOutcome::SymlinkTimeout }),
        !outcome_is_error(ApplyOutcome::SymlinkTimeout),
        outcome_is_warning(ApplyOutcome::SymlinkTimeout),
{
    let evs = seq![ApplyEvent::ReloadExit(true), ApplyEvent::TriggerExit(true)] + checks;
    let evs1 = evs.drop_first();
    let evs2 = evs1.drop_first();
    assert(evs[0] == ApplyEvent::ReloadExit(true));
    assert(evs1[0] == evs[1] && evs[1] == ApplyEvent::TriggerExit(true));
    assert(run_events(EngineState::AwaitingReload, true, evs) == run_events(
        EngineState::AwaitingTrigger,
        true,
        evs1,
    ));
    assert(run_events(EngineState::AwaitingTrigger, true, evs1) == run_events(
        EngineState::Polling { remaining: POLL_ATTEMPTS },
        true,
        evs2,
    ));
    assert(evs2 =~= checks);
    lemma_polling_exhausts(POLL_ATTEMPTS, true, checks);
}

} // verus!
