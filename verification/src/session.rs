//! How a run ends, and how the sender reacts to keys while it serves.

use vstd::prelude::*;

verus! {

/// How a run of the command ended.
#[derive(Debug, Clone, Copy, PartialEq, Eq, Structural)]
pub enum Outcome {
    /// The transfer completed.
    Success,
    /// The transfer failed (the error is printed).
    Failed,
    /// The user interrupted the transfer.
    Interrupted,
}

/// The process exit status of an outcome: 0 on success, 1 on failure and
/// 130 when interrupted.
pub open spec fn exit_status(o: Outcome) -> u8 {
    match o {
        Outcome::Success => 0,
        Outcome::Failed => 1,
        Outcome::Interrupted => 130,
    }
}

/// The process exit status of an outcome.
pub fn exit_code(outcome: Outcome) -> (code: u8)
    ensures
        code == exit_status(outcome),
{
    match outcome {
        Outcome::Success => 0,
        Outcome::Failed => 1,
        Outcome::Interrupted => 130,
    }
}

/// Law: different outcomes exit with different statuses, and only success
/// exits with 0.
pub proof fn law_exit_status_distinct(a: Outcome, b: Outcome)
    ensures
        (exit_status(a) == exit_status(b)) <==> a == b,
        (exit_status(a) == 0) <==> a == Outcome::Success,
{
}

/// A key press as the sender's key listener sees it.
#[derive(Debug, Clone, Copy, PartialEq, Eq, Structural)]
pub struct KeyPress {
    /// The character of the key, if it is one.
    pub ch: Option<char>,
    /// No modifier was held.
    pub no_modifiers: bool,
    /// Control, and no other modifier, was held.
    pub control_only: bool,
    /// The key went down (rather than repeating or going up).
    pub pressed: bool,
}

/// What the sender does on a key.
#[derive(Debug, Clone, Copy, PartialEq, Eq, Structural)]
pub enum KeyAction {
    /// Copy the receive command to the clipboard.
    CopyCommand,
    /// Leave raw mode and stop serving.
    Interrupt,
    /// Nothing.
    Ignore,
}

/// The action a key asks for: `c` copies the receive command, `Ctrl-C`
/// interrupts, anything else is ignored.
pub open spec fn key_action_of(k: KeyPress) -> KeyAction {
    if k.ch == Some('c') && k.pressed && k.no_modifiers {
        KeyAction::CopyCommand
    } else if k.ch == Some('c') && k.pressed && k.control_only {
        KeyAction::Interrupt
    } else {
        KeyAction::Ignore
    }
}

/// The action a key asks for.
pub fn key_action(key: KeyPress) -> (a: KeyAction)
    ensures
        a == key_action_of(key),
{
    let is_c = match key.ch {
        Some(c) => c == 'c',
        None => false,
    };
    if is_c && key.pressed && key.no_modifiers {
        KeyAction::CopyCommand
    } else if is_c && key.pressed && key.control_only {
        KeyAction::Interrupt
    } else {
        KeyAction::Ignore
    }
}

/// Law: only the `c` key, when it goes down, does anything: with no
/// modifier it copies the command, with Control alone it interrupts; every
/// other key, Control with another character among them, is ignored.
pub proof fn law_only_c_acts(k: KeyPress)
    ensures
        key_action_of(k) != KeyAction::Ignore ==> k.ch == Some('c') && k.pressed,
        key_action_of(k) == KeyAction::CopyCommand ==> k.no_modifiers,
        key_action_of(k) == KeyAction::Interrupt ==> k.control_only,
        (k.ch == Some('c') && k.pressed && k.control_only && !k.no_modifiers) ==> key_action_of(k)
            == KeyAction::Interrupt,
        (k.ch == Some('c') && k.pressed && k.no_modifiers) ==> key_action_of(k)
            == KeyAction::CopyCommand,
{
}

} // verus!
