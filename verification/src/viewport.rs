//! Scroll state of the viewer: the first visible data row, the first visible
//! column, and the flag that tells whether columns beyond the right edge of
//! the screen were left undrawn by the last render pass.

use vstd::prelude::*;

verus! {

/// Scroll position and render feedback for one open file.
///
/// `rows_offset` is the index of the first visible data row; it may point past
/// the end of the file, in which case the next row query returns a short or
/// empty window. `cols_offset` is the index of the first visible column.
/// `more_cols_to_show` is recomputed by every render pass and gates
/// `scroll_right`.
pub struct CsvTableState {
    pub rows_offset: u64,
    pub cols_offset: u64,
    pub more_cols_to_show: bool,
    pub filename: String,
}

/// The row offset after one downward scroll step: one more, saturating at the
/// largest representable offset (the total row count is never known, so there
/// is no upper clamp against the end of the file).
pub open spec fn spec_scroll_down_offset(r: u64) -> u64 {
    if r < u64::MAX { (r + 1) as u64 } else { u64::MAX }
}

/// The row offset after one upward scroll step: one less, stopping at zero.
pub open spec fn spec_scroll_up_offset(r: u64) -> u64 {
    if r > 0 { (r - 1) as u64 } else { 0 }
}

impl CsvTableState {
    pub fn new(filename: String) -> (s: Self)
        ensures
            s.rows_offset == 0,
            s.cols_offset == 0,
            s.more_cols_to_show == true,
            s.filename == filename,
    {
        Self { rows_offset: 0, cols_offset: 0, more_cols_to_show: true, filename }
    }

    pub fn set_rows_offset(&mut self, offset: u64)
        ensures
            final(self).rows_offset == offset,
            final(self).cols_offset == old(self).cols_offset,
            final(self).more_cols_to_show == old(self).more_cols_to_show,
            final(self).filename == old(self).filename,
    {
        self.rows_offset = offset;
    }

    pub fn set_cols_offset(&mut self, offset: u64)
        ensures
            final(self).rows_offset == old(self).rows_offset,
            final(self).cols_offset == offset,
            final(self).more_cols_to_show == old(self).more_cols_to_show,
            final(self).filename == old(self).filename,
    {
        self.cols_offset = offset;
    }

    pub fn set_more_cols_to_show(&mut self, value: bool)
        ensures
            final(self).rows_offset == old(self).rows_offset,
            final(self).cols_offset == old(self).cols_offset,
            final(self).more_cols_to_show == value,
            final(self).filename == old(self).filename,
    {
        self.more_cols_to_show = value;
    }

    pub fn has_more_cols_to_show(&mut self) -> (r: bool)
        ensures
            r == old(self).more_cols_to_show,
            *final(self) == *old(self),
    {
        self.more_cols_to_show
    }

    /// Scroll one row down; the offset saturates instead of wrapping, and no
    /// upper bound against the file length is applied.
    pub fn scroll_down(&mut self)
        ensures
            final(self).rows_offset == spec_scroll_down_offset(old(self).rows_offset),
            final(self).cols_offset == old(self).cols_offset,
            final(self).more_cols_to_show == old(self).more_cols_to_show,
            final(self).filename == old(self).filename,
    {
        self.rows_offset = self.rows_offset.saturating_add(1);
    }

    /// Scroll one row up, stopping at the first row.
    pub fn scroll_up(&mut self)
        ensures
            final(self).rows_offset == spec_scroll_up_offset(old(self).rows_offset),
            final(self).cols_offset == old(self).cols_offset,
            final(self).more_cols_to_show == old(self).more_cols_to_show,
            final(self).filename == old(self).filename,
    {
        self.rows_offset = self.rows_offset.saturating_sub(1);
    }

    /// Scroll one column right, but only when the last render pass reported
    /// undrawn columns beyond the right edge; otherwise the state is left
    /// exactly as it was.
    pub fn scroll_right(&mut self)
        ensures
            old(self).more_cols_to_show ==> final(self).cols_offset
                == spec_scroll_down_offset(old(self).cols_offset),
            !old(self).more_cols_to_show ==> *final(self) == *old(self),
            final(self).rows_offset == old(self).rows_offset,
            final(self).more_cols_to_show == old(self).more_cols_to_show,
            final(self).filename == old(self).filename,
    {
        if self.more_cols_to_show {
            self.cols_offset = self.cols_offset.saturating_add(1);
        }
    }

    /// Scroll one column left, stopping at the first column; no flag check.
    pub fn scroll_left(&mut self)
        ensures
            final(self).cols_offset == spec_scroll_up_offset(old(self).cols_offset),
            final(self).rows_offset == old(self).rows_offset,
            final(self).more_cols_to_show == old(self).more_cols_to_show,
            final(self).filename == old(self).filename,
    {
        self.cols_offset = self.cols_offset.saturating_sub(1);
    }
}

/// A downward scroll step followed by an upward one returns the viewport to
/// the row offset it started from, for every offset that the step does not
/// saturate at; and since a row window is a function of the file bytes and
/// the offset alone, the window fetched after the round trip is the window
/// fetched before it.
pub proof fn lemma_scroll_round_trip(r: u64)
    requires
        0 < r < u64::MAX,
    ensures
        spec_scroll_up_offset(spec_scroll_down_offset(r)) == r,
{
}

/// One discrete input event, as the event source hands it to the loop.
#[derive(Debug, PartialEq, Eq, Structural, Clone, Copy)]
pub enum InputEvent {
    Quit,
    Down,
    Up,
    Right,
    Left,
    Resize { height: u64 },
    Other,
}

/// What the loop does after one event is folded into the state.
#[derive(Debug, PartialEq, Eq, Structural, Clone, Copy)]
pub enum LoopAction {
    /// Leave the interactive loop.
    Exit,
    /// The visible row set changed: fetch a fresh window, then redraw.
    Requery,
    /// Only the drawing changed: redraw the current window.
    Redraw,
}

/// Folds one input event into the scroll state and the window size, and says
/// what the loop must do next. A vertical scroll changes the visible row set
/// and demands a fresh query; a horizontal scroll only moves the draw offset;
/// a resize enlarges the window when the screen got taller than it; anything
/// else is ignored.
pub fn handle_event(state: &mut CsvTableState, num_rows: &mut u64, ev: &InputEvent) -> (a:
    LoopAction)
    ensures
        final(state).filename == old(state).filename,
        final(state).more_cols_to_show == old(state).more_cols_to_show,
        *ev == InputEvent::Quit ==> a == LoopAction::Exit && *final(state) == *old(state)
            && *final(num_rows) == *old(num_rows),
        *ev == InputEvent::Down ==> a == LoopAction::Requery
            && final(state).rows_offset == spec_scroll_down_offset(old(state).rows_offset)
            && final(state).cols_offset == old(state).cols_offset
            && *final(num_rows) == *old(num_rows),
        *ev == InputEvent::Up && old(state).rows_offset > 0 ==> a == LoopAction::Requery
            && final(state).rows_offset == old(state).rows_offset - 1
            && final(state).cols_offset == old(state).cols_offset
            && *final(num_rows) == *old(num_rows),
        *ev == InputEvent::Up && old(state).rows_offset == 0 ==> a == LoopAction::Redraw
            && *final(state) == *old(state) && *final(num_rows) == *old(num_rows),
        *ev == InputEvent::Right ==> a == LoopAction::Redraw
            && final(state).rows_offset == old(state).rows_offset
            && *final(num_rows) == *old(num_rows)
            && (old(state).more_cols_to_show ==> final(state).cols_offset
                == spec_scroll_down_offset(old(state).cols_offset))
            && (!old(state).more_cols_to_show ==> *final(state) == *old(state)),
        *ev == InputEvent::Left ==> a == LoopAction::Redraw
            && final(state).rows_offset == old(state).rows_offset
            && final(state).cols_offset == spec_scroll_up_offset(old(state).cols_offset)
            && *final(num_rows) == *old(num_rows),
        *ev matches InputEvent::Resize { height } ==> *final(state) == *old(state)
            && (height > *old(num_rows) ==> a == LoopAction::Requery && *final(num_rows) == height)
            && (height <= *old(num_rows) ==> a == LoopAction::Redraw
                && *final(num_rows) == *old(num_rows)),
        *ev == InputEvent::Other ==> a == LoopAction::Redraw && *final(state) == *old(state)
            && *final(num_rows) == *old(num_rows),
{
    match ev {
        InputEvent::Quit => LoopAction::Exit,
        InputEvent::Down => {
            state.scroll_down();
            LoopAction::Requery
        },
        InputEvent::Up => {
            if state.rows_offset > 0 {
                state.scroll_up();
                LoopAction::Requery
            } else {
                LoopAction::Redraw
            }
        },
        InputEvent::Right => {
            state.scroll_right();
            LoopAction::Redraw
        },
        InputEvent::Left => {
            state.scroll_left();
            LoopAction::Redraw
        },
        InputEvent::Resize { height } => {
            if *height > *num_rows {
                *num_rows = *height;
                LoopAction::Requery
            } else {
                LoopAction::Redraw
            }
        },
        InputEvent::Other => LoopAction::Redraw,
    }
}

} // verus!
