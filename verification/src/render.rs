//! The pure layout arithmetic behind the presentation layer: the drawing
//! region, the visible row window around the cursor, and middle-truncation of
//! long lines.

use vstd::prelude::*;

verus! {

/// Computes the sizes the presentation layer draws with; the drawing itself
/// belongs to the host.
pub struct PluginRenderer;

/// The row window `[first, last)` drawn for a list: when the table is shorter
/// than the list, a window of one row less than the table height (its title
/// row), started half a window above the selection and saturated at zero;
/// otherwise the whole list.
pub open spec fn render_range_spec(table_rows: int, items_len: int, selected: Option<usize>) -> (
    int,
    int,
) {
    if table_rows <= items_len {
        let rc = if table_rows >= 1 {
            table_rows - 1
        } else {
            0
        };
        let sel = match selected {
            Some(s) => s as int,
            None => 0,
        };
        let first = if sel >= rc / 2 {
            sel - rc / 2
        } else {
            0
        };
        let last = if first + rc <= usize::MAX {
            first + rc
        } else {
            usize::MAX as int
        };
        (first, last)
    } else {
        (0, items_len)
    }
}

/// Middle truncation for one rendered line: lines longer than the width keep
/// their first ten characters, an ellipsis, and as many trailing characters
/// as the width allows.
pub open spec fn truncated_text_spec(t: Seq<char>, w: int) -> Seq<char> {
    if t.len() > w && w > 10 {
        let keep = if w >= 13 {
            w - 13
        } else {
            0
        };
        t.take(10) + "..."@ + t.skip(t.len() - keep)
    } else {
        t
    }
}

impl PluginRenderer {
    /// The drawing region: the whole pane, anchored at the origin.
    pub fn calculate_main_size(rows: usize, cols: usize) -> (r: (usize, usize, usize, usize))
        ensures
            r == (0usize, 0usize, cols, rows),
    {
        (0, 0, cols, rows)
    }

    /// Which rows of a list to draw, as `[first, last)`.
    pub fn calculate_render_range(
        table_rows: usize,
        items_len: usize,
        selected_index: Option<usize>,
    ) -> (r: (usize, usize))
        ensures
            (r.0 as int, r.1 as int) == render_range_spec(
                table_rows as int,
                items_len as int,
                selected_index,
            ),
    {
        if table_rows <= items_len {
            let rc: usize = if table_rows >= 1 {
                table_rows - 1
            } else {
                0
            };
            let sel: usize = match selected_index {
                Some(s) => s,
                None => 0,
            };
            let first: usize = if sel >= rc / 2 {
                sel - rc / 2
            } else {
                0
            };
            let last: usize = if first <= usize::MAX - rc {
                first + rc
            } else {
                usize::MAX
            };
            (first, last)
        } else {
            (0, items_len)
        }
    }

    /// Truncates one rendered line to the column budget, keeping its head and
    /// tail around an ellipsis.
    pub fn get_truncated_text(text: &str, max_width: usize) -> (r: String)
        ensures
            r@ == truncated_text_spec(text@, max_width as int),
    {
        let len = text.unicode_len();
        if len > max_width && max_width > 10 {
            let keep: usize = if max_width >= 13 {
                max_width - 13
            } else {
                0
            };
            let head = text.substring_char(0, 10);
            let tail = text.substring_char(len - keep, len);
            let mut r = head.to_owned();
            r.append("...");
            r.append(tail);
            proof {
                assert(head@ =~= text@.take(10));
                assert(tail@ =~= text@.skip(text@.len() - keep));
                assert(r@ =~= text@.take(10) + "..."@ + text@.skip(text@.len() - keep));
            }
            r
        } else {
            text.to_owned()
        }
    }
}

} // verus!
