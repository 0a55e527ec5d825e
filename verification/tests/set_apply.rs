use bytes::Bytes;
use rudis::cmd::apply::{Action, ApplyError, Outcome, Phase};
use rudis::cmd::set::SetCmd;
use rudis::frame::Frame;
use rudis::ttl::Ttl;

fn command() -> SetCmd {
    SetCmd::new("k", Bytes::from_static(b"v"), Some(Ttl::from_millis(1500)))
}

/// Runs a command against outcomes given in advance, and returns every
/// action that was asked for.
fn run(cmd: SetCmd, outcomes: &[Outcome]) -> Vec<Action> {
    let (mut phase, first) = cmd.apply();
    let mut actions = vec![first];
    for outcome in outcomes {
        let (next, action) = phase.step(*outcome);
        phase = next;
        actions.push(action);
    }
    actions
}

#[test]
fn apply_asks_the_store_first() {
    let (phase, action) = command().apply();
    assert_eq!(phase, Phase::Storing);
    assert_eq!(
        action,
        Action::Store {
            key: "k".to_string(),
            value: Bytes::from_static(b"v"),
            expire: Some(Ttl::from_millis(1500)),
        }
    );
}

#[test]
fn apply_hands_on_a_missing_expiration() {
    let (_, action) = SetCmd::new("k", Bytes::from_static(b"v"), None).apply();
    assert_eq!(
        action,
        Action::Store {
            key: "k".to_string(),
            value: Bytes::from_static(b"v"),
            expire: None,
        }
    );
}

#[test]
fn store_then_ok_then_finish() {
    let actions = run(command(), &[Outcome::Done, Outcome::Done]);
    assert_eq!(actions.len(), 3);
    assert!(matches!(actions[0], Action::Store { .. }));
    assert_eq!(actions[1], Action::Respond(Frame::Simple("OK".to_string())));
    assert_eq!(actions[2], Action::Finish(Ok(())));
}

#[test]
fn failed_store_writes_no_response() {
    let actions = run(command(), &[Outcome::Failed, Outcome::Done, Outcome::Done]);
    assert!(matches!(actions[0], Action::Store { .. }));
    for action in &actions[1..] {
        assert_eq!(*action, Action::Finish(Err(ApplyError::Store)));
    }
}

#[test]
fn failed_write_is_an_io_error() {
    let actions = run(command(), &[Outcome::Done, Outcome::Failed, Outcome::Done]);
    assert_eq!(actions[1], Action::Respond(Frame::Simple("OK".to_string())));
    assert_eq!(actions[2], Action::Finish(Err(ApplyError::Io)));
    assert_eq!(actions[3], Action::Finish(Err(ApplyError::Io)));
}

#[test]
fn steps_follow_the_phases() {
    assert_eq!(Phase::Storing.step(Outcome::Done).0, Phase::Responding);
    assert_eq!(
        Phase::Storing.step(Outcome::Failed).0,
        Phase::Finished(Err(ApplyError::Store))
    );
    assert_eq!(
        Phase::Responding.step(Outcome::Done).0,
        Phase::Finished(Ok(()))
    );
    assert_eq!(
        Phase::Responding.step(Outcome::Failed).0,
        Phase::Finished(Err(ApplyError::Io))
    );
}

#[test]
fn nothing_happens_after_the_finish() {
    for result in [Ok(()), Err(ApplyError::Store), Err(ApplyError::Io)] {
        for outcome in [Outcome::Done, Outcome::Failed] {
            let (phase, action) = Phase::Finished(result).step(outcome);
            assert_eq!(phase, Phase::Finished(result));
            assert_eq!(action, Action::Finish(result));
        }
    }
}

#[test]
fn store_and_response_come_once_and_in_order() {
    let all = [Outcome::Done, Outcome::Failed];
    for a in all {
        for b in all {
            for c in all {
                let actions = run(command(), &[a, b, c]);
                let stores: Vec<usize> = (0..actions.len())
                    .filter(|i| matches!(actions[*i], Action::Store { .. }))
                    .collect();
                let responses: Vec<usize> = (0..actions.len())
                    .filter(|i| matches!(actions[*i], Action::Respond(_)))
                    .collect();
                assert_eq!(stores, vec![0]);
                if a == Outcome::Done {
                    assert_eq!(responses, vec![1]);
                } else {
                    assert!(responses.is_empty());
                }
            }
        }
    }
}
