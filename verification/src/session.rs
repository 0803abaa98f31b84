//! Key dispatch: one decision function from engine state and key event
//! to the next state and the action the surrounding loop must take.
//!
//! The surrounding event loop performs what the outcome asks — quit,
//! execute an item, or repaint — and owns everything the decision does
//! not: reading events, spawning processes, painting.

use vstd::prelude::*;
use crate::engine::{AppState, ranked_from};
use crate::text::{control_char, is_control_char};
use crate::view::{scroll_offset, window_start};

verus! {

/// A key event, already decoded by the presentation layer.
pub enum KeyInput {
    /// Escape: dismiss the panel.
    Escape,
    /// Enter: execute the selected item.
    Enter,
    /// Arrow up: move the selection up.
    Up,
    /// Arrow down: move the selection down.
    Down,
    /// Backspace: delete the last query character.
    Backspace,
    /// A digit key `1` to `9`: execute the visible row with that ordinal.
    Digit(u8),
    /// Any other key, as the text it produced.
    Text(String),
}

/// What the event loop must do after a key press.
#[derive(Debug, PartialEq, Eq, Structural)]
pub enum KeyOutcome {
    /// Leave the session; nothing is executed.
    Quit,
    /// Execute the catalog entry with this index, then leave.
    Execute(usize),
    /// State changed: repaint.
    Redraw,
    /// Nothing to do.
    Nothing,
}

/// The query after deleting its last character.
pub open spec fn popped(q: Seq<char>) -> Seq<char> {
    if q.len() > 0 {
        q.take(q.len() - 1)
    } else {
        q
    }
}

/// `s` holds a control character, so typing it is ignored.
pub open spec fn has_control(s: Seq<char>) -> bool {
    exists|k: int| 0 <= k < s.len() && is_control_char(s[k])
}

/// Dispatches one key press, as the session loop's single decision
/// point.
///
/// Escape quits. Enter executes the selection, if any. The arrows move
/// the selection cyclically. Backspace removes the last query character
/// and recomputes the view. A digit executes the visible row with that
/// ordinal, if one exists, computing the same pagination window the
/// renderer shows. Any other text without control characters is appended
/// to the query, which recomputes the view.
pub fn handle_key(state: &mut AppState, key: KeyInput, visible_capacity: usize) -> (r: KeyOutcome)
    requires
        old(state).wf(),
        (key matches KeyInput::Digit(d) ==> 1 <= d <= 9),
    ensures
        final(state).wf(),
        (match key {
            KeyInput::Escape => r == KeyOutcome::Quit && *final(state) == *old(state),
            KeyInput::Enter => {
                if old(state).filtered_indices@.len() > 0 {
                    r == KeyOutcome::Execute(
                        old(state).filtered_indices@[old(state).selected_index as int],
                    ) && *final(state) == *old(state)
                } else {
                    r == KeyOutcome::Nothing && *final(state) == *old(state)
                }
            },
            KeyInput::Up => r == KeyOutcome::Redraw && moved_by(*old(state), *final(state), -1),
            KeyInput::Down => r == KeyOutcome::Redraw && moved_by(*old(state), *final(state), 1),
            KeyInput::Backspace => r == KeyOutcome::Redraw && final(state).query@ == popped(
                old(state).query@,
            ) && ranked_from(
                AppState { query: final(state).query, ..*old(state) },
                *final(state),
            ),
            KeyInput::Digit(d) => {
                let total = old(state).filtered_indices@.len() as int;
                let start = window_start(
                    total,
                    visible_capacity as int,
                    old(state).selected_index as int,
                );
                let target = start + d - 1;
                if target < total && d <= visible_capacity {
                    r == KeyOutcome::Execute(old(state).filtered_indices@[target])
                        && *final(state) == *old(state)
                } else {
                    r == KeyOutcome::Nothing && *final(state) == *old(state)
                }
            },
            KeyInput::Text(s) => {
                if has_control(s@) {
                    r == KeyOutcome::Nothing && *final(state) == *old(state)
                } else {
                    r == KeyOutcome::Redraw && final(state).query@ == old(state).query@ + s@
                        && ranked_from(
                        AppState { query: final(state).query, ..*old(state) },
                        *final(state),
                    )
                }
            },
        }),
{
    match key {
        KeyInput::Escape => KeyOutcome::Quit,
        KeyInput::Enter => {
            if state.filtered_indices.len() > 0 {
                let idx = state.filtered_indices[state.selected_index];
                KeyOutcome::Execute(idx)
            } else {
                KeyOutcome::Nothing
            }
        },
        KeyInput::Up => {
            state.move_selection(-1);
            KeyOutcome::Redraw
        },
        KeyInput::Down => {
            state.move_selection(1);
            KeyOutcome::Redraw
        },
        KeyInput::Backspace => {
            let n = state.query.as_str().unicode_len();
            let shortened = if n == 0 {
                String::new()
            } else {
                state.query.as_str().substring_char(0, n - 1).to_owned()
            };
            proof {
                assert(shortened@ =~= popped(old(state).query@));
            }
            state.update_query(shortened.as_str());
            KeyOutcome::Redraw
        },
        KeyInput::Digit(d) => {
            let total = state.filtered_indices.len();
            let start = scroll_offset(total, visible_capacity, state.selected_index);
            proof {
                assert(start <= total);
            }
            let remaining = total - start;
            let offset = (d as usize) - 1;
            if offset < remaining && (d as usize) <= visible_capacity {
                let idx = state.filtered_indices[start + offset];
                KeyOutcome::Execute(idx)
            } else {
                KeyOutcome::Nothing
            }
        },
        KeyInput::Text(s) => {
            let n = s.as_str().unicode_len();
            let mut control_found = false;
            let mut k: usize = 0;
            while k < n
                invariant
                    n == s@.len(),
                    k <= n,
                    control_found == exists|j: int| 0 <= j < k && is_control_char(s@[j]),
                decreases n - k,
            {
                if control_char(s.as_str().get_char(k)) {
                    control_found = true;
                }
                k += 1;
            }
            if control_found {
                KeyOutcome::Nothing
            } else {
                let mut appended = state.query.clone();
                appended.append(s.as_str());
                state.update_query(appended.as_str());
                KeyOutcome::Redraw
            }
        },
    }
}

/// `post` is `pre` with the cursor moved cyclically by `delta`.
pub open spec fn moved_by(pre: AppState, post: AppState, delta: int) -> bool {
    &&& (post == AppState { selected_index: post.selected_index, ..pre })
    &&& (pre.filtered_indices@.len() == 0 ==> post.selected_index == 0)
    &&& (pre.filtered_indices@.len() > 0 ==> post.selected_index as int == (pre.selected_index
        + delta) % (pre.filtered_indices@.len() as int))
}

} // verus!
