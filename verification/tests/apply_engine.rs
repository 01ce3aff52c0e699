use udever::apply::ApplyAction;
use udever::apply::ApplyEngine;
use udever::apply::ApplyEvent;
use udever::apply::ApplyOutcome;
use udever::apply::POLL_ATTEMPTS;
use udever::apply::POLL_INTERVAL_MS;

/// Drive the engine, answering every command with `command_ok` and every
/// node check with `node_exists`; returns the outcome and how many node
/// checks were made.
fn drive(
    expected_symlink: Option<&str>,
    reload_ok: bool,
    trigger_ok: bool,
    node_appears_at: Option<usize>,
) -> (ApplyOutcome, usize) {
    let mut engine = ApplyEngine::new(expected_symlink.map(|s| s.to_string()));
    let mut checks = 0usize;
    loop {
        match engine.next_action() {
            ApplyAction::RunReload => engine.on_event(ApplyEvent::ReloadExit(reload_ok)),
            ApplyAction::RunTrigger => engine.on_event(ApplyEvent::TriggerExit(trigger_ok)),
            ApplyAction::CheckNode => {
                let exists = node_appears_at.map_or(false, |at| checks >= at);
                checks += 1;
                engine.on_event(ApplyEvent::NodeCheck(exists));
            }
            ApplyAction::Report { outcome } => return (outcome, checks),
        }
    }
}

#[test]
fn timeout_is_a_warning_not_an_error() {
    // the node never appears: all attempts are used, and the outcome is a
    // warning the caller still exits zero on
    let (outcome, checks) = drive(Some("mouse"), true, true, None);
    assert_eq!(outcome, ApplyOutcome::SymlinkTimeout);
    assert_eq!(checks, POLL_ATTEMPTS as usize);
    assert!(!ApplyEngine::outcome_error(&outcome));
}

#[test]
fn node_found_reports_success_immediately() {
    let (outcome, checks) = drive(Some("mouse"), true, true, Some(2));
    assert_eq!(outcome, ApplyOutcome::SymlinkVerified);
    assert_eq!(checks, 3);
}

#[test]
fn node_found_on_first_check() {
    let (outcome, checks) = drive(Some("mouse"), true, true, Some(0));
    assert_eq!(outcome, ApplyOutcome::SymlinkVerified);
    assert_eq!(checks, 1);
}

#[test]
fn no_symlink_applies_without_polling() {
    let (outcome, checks) = drive(None, true, true, None);
    assert_eq!(outcome, ApplyOutcome::Applied);
    assert_eq!(checks, 0);
    assert!(!ApplyEngine::outcome_error(&outcome));
}

#[test]
fn failed_reload_is_a_hard_failure() {
    let (outcome, checks) = drive(Some("mouse"), false, true, Some(0));
    assert_eq!(outcome, ApplyOutcome::ReloadFailed);
    assert_eq!(checks, 0);
    assert!(ApplyEngine::outcome_error(&outcome));
}

#[test]
fn failed_trigger_is_a_hard_failure() {
    let (outcome, checks) = drive(None, true, false, None);
    assert_eq!(outcome, ApplyOutcome::TriggerFailed);
    assert_eq!(checks, 0);
    assert!(ApplyEngine::outcome_error(&outcome));
}

#[test]
fn poll_budget_is_twenty_at_hundred_millis() {
    assert_eq!(POLL_ATTEMPTS, 20);
    assert_eq!(POLL_INTERVAL_MS, 100);
}
