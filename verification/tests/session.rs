use gap::session::{exit_code, key_action, KeyAction, KeyPress, Outcome};

#[test]
fn exit_codes() {
    assert_eq!(exit_code(Outcome::Success), 0);
    assert_eq!(exit_code(Outcome::Failed), 1);
    assert_eq!(exit_code(Outcome::Interrupted), 130);
}

fn key(ch: Option<char>, no_modifiers: bool, control_only: bool, pressed: bool) -> KeyPress {
    KeyPress { ch, no_modifiers, control_only, pressed }
}

#[test]
fn keys() {
    assert_eq!(key_action(key(Some('c'), true, false, true)), KeyAction::CopyCommand);
    assert_eq!(key_action(key(Some('c'), false, true, true)), KeyAction::Interrupt);
    assert_eq!(key_action(key(Some('c'), true, false, false)), KeyAction::Ignore);
    assert_eq!(key_action(key(Some('x'), true, false, true)), KeyAction::Ignore);
    assert_eq!(key_action(key(None, false, true, true)), KeyAction::Ignore);
    assert_eq!(key_action(key(Some('c'), false, false, true)), KeyAction::Ignore);
}
