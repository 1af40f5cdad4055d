//! Scrolling through the document and moving the focus between output boxes.
use vstd::prelude::*;

verus! {

/// Vertical scroll position of the document view and the index of the focused output box.
pub struct ScrollState {
    pub offset: usize,
    pub focused_index: usize,
}

impl ScrollState {
    /// A view scrolled to the top with the first output box focused.
    pub fn new() -> (s: Self)
        ensures
            s.offset == 0,
            s.focused_index == 0,
    {
        ScrollState { offset: 0, focused_index: 0 }
    }

    /// Scrolls down by `lines`, but not past `max_offset`.
    pub fn scroll_down(&mut self, lines: usize, max_offset: usize)
        requires
            old(self).offset + lines <= usize::MAX,
        ensures
            final(self).offset == if old(self).offset + lines < max_offset {
                old(self).offset + lines
            } else {
                max_offset as int
            },
            final(self).focused_index == old(self).focused_index,
    {
        let o = self.offset + lines;
        self.offset = if o < max_offset { o } else { max_offset };
    }

    /// Scrolls up by `lines`, but not above the top.
    pub fn scroll_up(&mut self, lines: usize)
        ensures
            final(self).offset == if old(self).offset >= lines {
                old(self).offset - lines
            } else {
                0
            },
            final(self).focused_index == old(self).focused_index,
    {
        self.offset = if self.offset >= lines { self.offset - lines } else { 0 };
    }

    /// Focuses the next of `total` output boxes; stays on the last one.
    pub fn focus_next(&mut self, total: usize)
        requires
            old(self).focused_index < usize::MAX,
        ensures
            final(self).focused_index == if old(self).focused_index + 1 < total {
                old(self).focused_index + 1
            } else {
                old(self).focused_index as int
            },
            final(self).offset == old(self).offset,
    {
        if self.focused_index + 1 < total {
            self.focused_index += 1;
        }
    }

    /// Focuses the previous output box; stays on the first one.
    pub fn focus_prev(&mut self)
        ensures
            final(self).focused_index == if old(self).focused_index > 0 {
                old(self).focused_index - 1
            } else {
                0
            },
            final(self).offset == old(self).offset,
    {
        self.focused_index = if self.focused_index > 0 { self.focused_index - 1 } else { 0 };
    }

    /// Focuses the first output box.
    pub fn reset_focus(&mut self)
        ensures
            final(self).focused_index == 0,
            final(self).offset == old(self).offset,
    {
        self.focused_index = 0;
    }
}

/// Focus moves never leave the range of output boxes: from a focus inside
/// `[0, total)`, moving to the next box and moving to the previous one both
/// keep it inside.
pub proof fn lemma_focus_in_bounds(focused: usize, total: usize)
    requires
        focused < total,
    ensures
        (if focused + 1 < total { focused + 1 } else { focused as int }) < total,
        (if focused > 0 { focused - 1 } else { 0 }) < total,
{
}

/// Scrolling down never passes the largest offset, once the offset is within it.
pub proof fn lemma_scroll_down_bounded(offset: usize, lines: usize, max_offset: usize)
    requires
        offset <= max_offset,
    ensures
        (if offset + lines < max_offset { offset + lines } else { max_offset as int }) <= max_offset,
{
}

} // verus!
