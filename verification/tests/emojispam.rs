use polestar_models::emojispam::{SpamAction, SpamError, SpamMachine, SpamState};
use polestar_models::machine::Machine;

fn run(m: &SpamMachine, actions: &[SpamAction]) -> Result<SpamState, SpamError> {
    let mut s = SpamState::default();
    for a in actions {
        s = m.transition(s, *a)?.0;
    }
    Ok(s)
}

#[test]
fn typing_copying_and_pasting_add_up() {
    let m = SpamMachine { target: 12 };
    let s = run(&m, &[SpamAction::One, SpamAction::One, SpamAction::One, SpamAction::Copy, SpamAction::Paste, SpamAction::Paste, SpamAction::Paste]).unwrap();
    assert_eq!(s.len, 12);
    assert_eq!(s.cost, 3 + 5 + 9);
    assert_eq!(s.buf, Some(3));
    assert_eq!(s.pastes, Some(3));
    assert!(m.is_terminal(&s));
    let s = run(&m, &[SpamAction::One, SpamAction::Copy, SpamAction::Paste, SpamAction::Copy, SpamAction::Paste]).unwrap();
    assert_eq!(s.len, 4);
    assert_eq!(s.buf, Some(2));
    assert!(!m.is_terminal(&s));
}

#[test]
fn pointless_actions_are_refused() {
    let m = SpamMachine { target: 10 };
    assert_eq!(run(&m, &[SpamAction::Copy]), Err(SpamError::NothingToCopy));
    assert_eq!(run(&m, &[SpamAction::Paste]), Err(SpamError::NoBuffer));
    assert_eq!(run(&m, &[SpamAction::One, SpamAction::Copy, SpamAction::Copy]), Err(SpamError::AlreadyCopied));
    assert_eq!(run(&m, &[SpamAction::One, SpamAction::Copy, SpamAction::One]), Err(SpamError::OneAfterCopy));
    assert_eq!(SpamState::default().cost(&SpamAction::Copy), 5);
}
