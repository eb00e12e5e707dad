//! Verified core of a line-based chat server: the wire format of chat lines,
//! the broker that routes messages between connected peers, the registry of
//! known users, the server's log panes and the migration file filter.

pub mod broker;
pub mod chat_ui;
pub mod layout;
pub mod migration;
pub mod protocol;
pub mod registry;
pub mod text;

use vstd::prelude::*;

verus! {

/// Adds two numbers.
pub fn add(left: usize, right: usize) -> (sum: usize)
    requires
        left + right <= usize::MAX,
    ensures
        sum == left + right,
{
    left + right
}

} // verus!
