//! Row layout: visible capacity, the pagination window over the filtered
//! view, and the plan of visible rows with their shortcut ordinals.
//!
//! When the filtered view has more rows than fit on screen, the visible
//! window is centered on the selection cursor and clamped so that it never
//! starts before the first row nor ends past the last one.

use vstd::prelude::*;
use crate::engine::AppState;

verus! {

/// Height of one list row, in pixels.
pub open spec fn row_height() -> int {
    30
}

/// Height of the search line, in pixels.
pub open spec fn search_line_height() -> int {
    20
}

/// Number of whole rows that fit below the search line: the vertical
/// space left after padding, search line and spacing, divided by the row
/// height; zero when nothing fits.
pub open spec fn spec_visible_capacity(height: int, padding: int, spacing: int) -> int {
    let avail = height - padding - search_line_height() - spacing - padding;
    if avail <= 0 {
        0
    } else {
        avail / row_height()
    }
}

/// Computes how many rows fit on a panel of the given height.
pub fn visible_capacity(height: u32, padding: u32, spacing: u32) -> (r: usize)
    ensures
        r == spec_visible_capacity(height as int, padding as int, spacing as int),
{
    let used = (padding as u64) + 20 + (spacing as u64) + (padding as u64);
    if (height as u64) <= used {
        0
    } else {
        (((height as u64) - used) / 30) as usize
    }
}

/// First visible row of the pagination window: `cursor - capacity/2`
/// clamped to `[0, total - capacity]`, or `0` when everything fits.
pub open spec fn window_start(total: int, capacity: int, cursor: int) -> int {
    if total <= capacity {
        0
    } else {
        let lo = cursor - capacity / 2;
        let hi = total - capacity;
        if lo <= 0 {
            0
        } else if lo >= hi {
            hi
        } else {
            lo
        }
    }
}

/// Computes the first row of the visible window over a filtered view of
/// `total` rows, `capacity` of which fit on screen, with the selection
/// cursor at `cursor`.
pub fn scroll_offset(total: usize, capacity: usize, cursor: usize) -> (r: usize)
    requires
        cursor < total || cursor == 0,
    ensures
        r == window_start(total as int, capacity as int, cursor as int),
{
    if total <= capacity {
        0
    } else {
        let half = capacity / 2;
        if cursor < half {
            0
        } else if cursor >= total - half {
            total - capacity
        } else {
            cursor - half
        }
    }
}

/// One visible list row, ready to paint.
pub struct RowPlan {
    /// Position of the row in the filtered view.
    pub view_index: usize,
    /// The catalog entry shown on this row.
    pub catalog_index: usize,
    /// One-based shortcut label, on the first nine visible rows only.
    pub ordinal: Option<u8>,
    /// Whether this row is the selection cursor's row.
    pub selected: bool,
}

/// Plans the visible rows: the pagination window over the filtered view,
/// each row carrying its catalog entry, its digit-shortcut ordinal (first
/// nine rows), and whether it is the selected row.
pub fn visible_rows(state: &AppState, capacity: usize) -> (r: Vec<RowPlan>)
    requires
        state.wf(),
    ensures
        ({
            let total = state.filtered_indices@.len() as int;
            let start = window_start(total, capacity as int, state.selected_index as int);
            &&& r@.len() == if total - start < capacity as int {
                total - start
            } else {
                capacity as int
            }
            &&& forall|k: int|
                0 <= k < r@.len() ==> {
                    &&& (#[trigger] r@[k]).view_index == start + k
                    &&& r@[k].catalog_index == state.filtered_indices@[start + k]
                    &&& r@[k].ordinal == if k < 9 {
                        Some((k + 1) as u8)
                    } else {
                        None::<u8>
                    }
                    &&& r@[k].selected == (start + k == state.selected_index as int)
                }
        }),
{
    let total = state.filtered_indices.len();
    let start = scroll_offset(total, capacity, state.selected_index);
    let count = if total - start < capacity {
        total - start
    } else {
        capacity
    };
    let mut rows: Vec<RowPlan> = Vec::new();
    let mut k: usize = 0;
    while k < count
        invariant
            total == state.filtered_indices@.len(),
            start + count <= total,
            count <= capacity,
            k <= count,
            rows@.len() == k,
            forall|q: int|
                0 <= q < k ==> {
                    &&& (#[trigger] rows@[q]).view_index == start + q
                    &&& rows@[q].catalog_index == state.filtered_indices@[start + q]
                    &&& rows@[q].ordinal == if q < 9 {
                        Some((q + 1) as u8)
                    } else {
                        None::<u8>
                    }
                    &&& rows@[q].selected == (start + q == state.selected_index as int)
                },
        decreases count - k,
    {
        let ordinal = if k < 9 {
            Some((k + 1) as u8)
        } else {
            None
        };
        rows.push(
            RowPlan {
                view_index: start + k,
                catalog_index: state.filtered_indices[start + k],
                ordinal,
                selected: start + k == state.selected_index,
            },
        );
        k += 1;
    }
    rows
}

/// What the search line shows.
pub enum SearchLine {
    /// The query is empty: a dimmed placeholder invites typing.
    Placeholder,
    /// The query echoed behind a prompt, in the normal foreground color.
    Echo(String),
}

/// The search line for the current query: a placeholder when it is
/// empty, otherwise the query behind a `> ` prompt.
pub fn search_line(query: &str) -> (r: SearchLine)
    ensures
        query@.len() == 0 <==> r is Placeholder,
        query@.len() > 0 ==> r->Echo_0@ == "> "@ + query@,
{
    if query.is_empty() {
        SearchLine::Placeholder
    } else {
        let mut s = String::new();
        s.append("> ");
        s.append(query);
        SearchLine::Echo(s)
    }
}

} // verus!
