//! The menu surface: each numbered choice of the wallet program mapped
//! to an explicit command, so every action can be dispatched and tested
//! in isolation.

use vstd::prelude::*;
use crate::amount::{all_digits, dec_value};
use crate::text::trim_chars;

verus! {

/// One action of the wallet program.
#[derive(Clone, Copy, Debug, PartialEq, Eq, Structural)]
pub enum Command {
    CreateWallet,
    AddKey,
    PrintAddress,
    CreateSpendingKey,
    GeneratePaymentAddress,
    SendShielded,
    CheckRevealed,
    ShieldedSync,
    SendTransparent,
    SendIbc,
    Exit,
}

/// The command each menu number names.
pub open spec fn spec_command_for_choice(choice: usize) -> Option<Command> {
    if choice == 1 {
        Some(Command::CreateWallet)
    } else if choice == 2 {
        Some(Command::AddKey)
    } else if choice == 3 {
        Some(Command::PrintAddress)
    } else if choice == 4 {
        Some(Command::CreateSpendingKey)
    } else if choice == 5 {
        Some(Command::GeneratePaymentAddress)
    } else if choice == 6 {
        Some(Command::SendShielded)
    } else if choice == 7 {
        Some(Command::CheckRevealed)
    } else if choice == 8 {
        Some(Command::ShieldedSync)
    } else if choice == 9 {
        Some(Command::SendTransparent)
    } else if choice == 10 {
        Some(Command::SendIbc)
    } else if choice == 11 {
        Some(Command::Exit)
    } else {
        None
    }
}

/// Dispatch a menu number to its command; anything unlisted is invalid.
pub fn command_for_choice(choice: usize) -> (r: Option<Command>)
    ensures
        r == spec_command_for_choice(choice),
{
    match choice {
        1 => Some(Command::CreateWallet),
        2 => Some(Command::AddKey),
        3 => Some(Command::PrintAddress),
        4 => Some(Command::CreateSpendingKey),
        5 => Some(Command::GeneratePaymentAddress),
        6 => Some(Command::SendShielded),
        7 => Some(Command::CheckRevealed),
        8 => Some(Command::ShieldedSync),
        9 => Some(Command::SendTransparent),
        10 => Some(Command::SendIbc),
        11 => Some(Command::Exit),
        _ => None,
    }
}

/// Read a menu choice the way the prompt does: the input trimmed and
/// read as a number, with anything unreadable falling back to zero,
/// which no command answers to.
pub fn parse_choice(input: &str) -> (r: usize)
    ensures
        ({
            let t = trim_chars(input@);
            if all_digits(t) && dec_value(t) <= usize::MAX {
                r == dec_value(t)
            } else {
                r == 0
            }
        }),
{
    let t = crate::text::clean_address(input);
    match crate::amount::parse_amount(t.as_str()) {
        Ok(v) => {
            if v <= usize::MAX as u64 {
                v as usize
            } else {
                0
            }
        },
        Err(_) => 0,
    }
}

} // verus!
