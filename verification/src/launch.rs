//! Assembly of the command line for an executed item.
//!
//! The command string is split at whitespace into program and arguments.
//! An item that wants a terminal is wrapped in the configured terminal
//! emulator, its own command handed over as one final argument; without
//! a configured terminal it runs directly. Spawning the process, wiring
//! its standard streams and applying the group's environment overrides
//! happen outside the core.

use vstd::prelude::*;
use crate::config::GeneralConfig;
use crate::model::Entry;
use crate::text::{seq_views, split_ws, split_whitespace};

verus! {

/// The argument vector for executing `e`: the terminal emulator's own
/// words followed by the item's whole command, or the item's command
/// split at whitespace.
pub open spec fn spec_build_command(e: Entry, g: GeneralConfig) -> Seq<Seq<char>> {
    if e.open_in_terminal && g.terminal is Some {
        split_ws(g.terminal->Some_0@).push(e.command@)
    } else {
        split_ws(e.command@)
    }
}

/// Builds the argument vector for executing `entry`; its first element,
/// if any, is the program to spawn. An empty result means there is
/// nothing to run.
pub fn build_command(entry: &Entry, general: &GeneralConfig) -> (r: Vec<String>)
    ensures
        seq_views(r@) == spec_build_command(*entry, *general),
{
    if entry.open_in_terminal {
        match general.terminal.as_ref() {
            Some(term_cmd) => {
                let mut parts = split_whitespace(term_cmd.as_str());
                parts.push(entry.command.clone());
                proof {
                    assert(seq_views(parts@) =~= split_ws(general.terminal->Some_0@).push(
                        entry.command@,
                    ));
                }
                parts
            },
            None => split_whitespace(entry.command.as_str()),
        }
    } else {
        split_whitespace(entry.command.as_str())
    }
}

} // verus!
