//! The native clip player on macOS: how its windows are named, and which
//! of its errors mean that there is nothing to act on.
use vstd::prelude::*;

use crate::text::{chars_of, extend_chars, str_eq, string_from_chars};

verus! {

/// The identifier of a player's window: the owner window's label and the
/// player's id, joined by `::`.
pub fn player_window_identifier(owner_label: &str, player_id: &str) -> (r: String)
    ensures
        r@ == owner_label@ + "::"@ + player_id@,
{
    let mut v = chars_of(owner_label);
    extend_chars(&mut v, &chars_of("::"));
    extend_chars(&mut v, &chars_of(player_id));
    string_from_chars(&v)
}

/// The identifier of the view that stands in for a player's window in the
/// Dock: the window's identifier followed by `::dock-fallback`.
pub fn dock_fallback_identifier(window_identifier: &str) -> (r: String)
    ensures
        r@ == window_identifier@ + "::dock-fallback"@,
{
    let mut v = chars_of(window_identifier);
    extend_chars(&mut v, &chars_of("::dock-fallback"));
    string_from_chars(&v)
}

/// The error reported when no player is mounted.
pub open spec fn not_mounted_error() -> Seq<char> {
    "macOS macOS native player is not mounted."@
}

/// A result of acting on a player where a player that is not mounted
/// counts as success; other errors stay.
pub fn ignore_missing_macos_native_player_error(result: Result<(), String>) -> (r: Result<(), String>)
    ensures
        match result {
            Ok(()) => r is Ok,
            Err(e) => if e@ == not_mounted_error() {
                r is Ok
            } else {
                r matches Err(e2) && e2@ == e@
            },
        },
{
    match result {
        Err(error) => {
            if str_eq(error.as_str(), "macOS macOS native player is not mounted.") {
                Ok(())
            } else {
                Err(error)
            }
        },
        Ok(()) => Ok(()),
    }
}

} // verus!
