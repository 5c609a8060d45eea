//! The selection and scroll position of the process list.

use vstd::prelude::*;

verus! {

/// Selected row, first visible row and viewport height over a list of
/// `len` rows.
#[derive(Debug, Clone, Copy, PartialEq, Eq, Structural)]
pub struct ListCursor {
    pub selected_index: usize,
    pub scroll_offset: usize,
    pub visible_height: usize,
    pub len: usize,
}

/// `n - 1`, but 0 for 0.
pub open spec fn last_index(n: usize) -> usize {
    if n > 0 { (n - 1) as usize } else { 0 }
}

impl ListCursor {
    /// The selection is a row of the list (or 0 for an empty list) and
    /// lies in the viewport; without a viewport the offset stays inside the
    /// list.
    pub open spec fn well_placed(self) -> bool {
        &&& self.selected_index <= last_index(self.len)
        &&& self.visible_height == 0 ==> self.scroll_offset <= last_index(self.len)
        &&& self.visible_height > 0 ==> self.scroll_offset <= self.selected_index < self.scroll_offset
            + self.visible_height
    }

    /// The offset after scrolling just enough to show the selection.
    pub open spec fn spec_visible_offset(self) -> usize {
        if self.visible_height == 0 {
            if self.scroll_offset < last_index(self.len) { self.scroll_offset } else { last_index(self.len) }
        } else if self.selected_index < self.scroll_offset {
            self.selected_index
        } else if self.selected_index >= self.scroll_offset + self.visible_height {
            (self.selected_index - self.visible_height + 1) as usize
        } else {
            self.scroll_offset
        }
    }

    /// Scroll just enough to show the selection.
    pub fn ensure_visible(&mut self)
        ensures
            *final(self) == (ListCursor { scroll_offset: old(self).spec_visible_offset(), ..*old(self) }),
    {
        if self.visible_height == 0 {
            let last = if self.len > 0 { self.len - 1 } else { 0 };
            if self.scroll_offset > last {
                self.scroll_offset = last;
            }
            return;
        }
        if self.selected_index < self.scroll_offset {
            self.scroll_offset = self.selected_index;
        } else if self.selected_index - self.scroll_offset >= self.visible_height {
            self.scroll_offset = self.selected_index - self.visible_height + 1;
        }
    }

    /// Move selection up
    pub fn select_up(&mut self)
        ensures
            old(self).selected_index > 0 ==> *final(self) == (ListCursor {
                selected_index: (old(self).selected_index - 1) as usize,
                ..*old(self)
            }).move_view(),
            old(self).selected_index == 0 ==> *final(self) == *old(self),
    {
        if self.selected_index > 0 {
            self.selected_index = self.selected_index - 1;
            self.ensure_visible();
        }
    }

    /// Move selection down
    pub fn select_down(&mut self)
        ensures
            old(self).selected_index < last_index(old(self).len) ==> *final(self) == (ListCursor {
                selected_index: (old(self).selected_index + 1) as usize,
                ..*old(self)
            }).move_view(),
            old(self).selected_index >= last_index(old(self).len) ==> *final(self) == *old(self),
    {
        let last = if self.len > 0 { self.len - 1 } else { 0 };
        if self.selected_index < last {
            self.selected_index = self.selected_index + 1;
            self.ensure_visible();
        }
    }

    /// The cursor with its offset adjusted to show the selection.
    pub open spec fn move_view(self) -> ListCursor {
        ListCursor { scroll_offset: self.spec_visible_offset(), ..self }
    }

    /// Page up
    pub fn page_up(&mut self)
        ensures
            *final(self) == (ListCursor {
                selected_index: if old(self).selected_index > page_size(old(self).visible_height) {
                    (old(self).selected_index - page_size(old(self).visible_height)) as usize
                } else {
                    0
                },
                ..*old(self)
            }).move_view(),
    {
        let page = if self.visible_height > 0 { self.visible_height - 1 } else { 0 };
        self.selected_index = if self.selected_index > page { self.selected_index - page } else { 0 };
        self.ensure_visible();
    }

    /// Page down
    pub fn page_down(&mut self)
        ensures
            *final(self) == (ListCursor {
                selected_index: if old(self).selected_index + page_size(old(self).visible_height) < last_index(old(self).len) {
                    (old(self).selected_index + page_size(old(self).visible_height)) as usize
                } else {
                    last_index(old(self).len)
                },
                ..*old(self)
            }).move_view(),
    {
        let page = if self.visible_height > 0 { self.visible_height - 1 } else { 0 };
        let last = if self.len > 0 { self.len - 1 } else { 0 };
        self.selected_index = if self.selected_index < last && page < last - self.selected_index {
            self.selected_index + page
        } else {
            last
        };
        self.ensure_visible();
    }

    /// Go to the first row
    pub fn select_first(&mut self)
        ensures
            *final(self) == (ListCursor { selected_index: 0, scroll_offset: 0, ..*old(self) }),
    {
        self.selected_index = 0;
        self.scroll_offset = 0;
    }

    /// Go to the last row
    pub fn select_last(&mut self)
        ensures
            *final(self) == (ListCursor { selected_index: last_index(old(self).len), ..*old(self) }).move_view(),
    {
        self.selected_index = if self.len > 0 { self.len - 1 } else { 0 };
        self.ensure_visible();
    }

    /// Apply the viewport height, keeping selection and offset in the list.
    /// The cursor for a viewport of `height` rows: the selection clamped to
    /// the last row, the offset clamped so the viewport stays filled, then
    /// the view moved to keep the selection visible.
    pub open spec fn resized(self, height: usize) -> ListCursor {
        (ListCursor {
            visible_height: height,
            selected_index: if self.selected_index < last_index(self.len) {
                self.selected_index
            } else {
                last_index(self.len)
            },
            scroll_offset: {
                let h: usize = if height > 1 { height } else { 1 };
                let cap: usize = if self.len > h { (self.len - h) as usize } else { 0 };
                if self.scroll_offset < cap { self.scroll_offset } else { cap }
            },
            ..self
        }).move_view()
    }

    pub fn set_visible_height(&mut self, height: usize)
        ensures
            *final(self) == old(self).resized(height),
            final(self).well_placed(),
    {
        self.visible_height = height;
        let last = if self.len > 0 { self.len - 1 } else { 0 };
        if self.selected_index > last {
            self.selected_index = last;
        }
        let h = if height > 1 { height } else { 1 };
        let cap = if self.len > h { self.len - h } else { 0 };
        if self.scroll_offset > cap {
            self.scroll_offset = cap;
        }
        self.ensure_visible();
    }

    /// Change the number of rows, as a refresh does, and place the cursor.
    pub fn set_len(&mut self, len: usize)
        ensures
            *final(self) == (ListCursor { len, ..*old(self) }).resized(old(self).visible_height),
            final(self).len == len,
            final(self).visible_height == old(self).visible_height,
            final(self).well_placed(),
    {
        self.len = len;
        let height = self.visible_height;
        self.set_visible_height(height);
    }
}

/// Rows one page key moves: the viewport height less one.
pub open spec fn page_size(height: usize) -> nat {
    if height > 0 { (height - 1) as nat } else { 0 }
}

/// Refreshing the list with an unchanged length leaves a well placed cursor
/// whose viewport is filled exactly where it was.
pub proof fn same_length_keeps_cursor(c: ListCursor)
    requires
        c.well_placed(),
        c.scroll_offset + (if c.visible_height > 1 { c.visible_height } else { 1 }) <= c.len,
    ensures
        (ListCursor { len: c.len, ..c }).resized(c.visible_height) == c,
{
}

/// Every move keeps a well placed cursor well placed.
pub proof fn navigation_keeps_cursor_placed(c: ListCursor)
    requires
        c.well_placed(),
    ensures
        c.selected_index > 0 ==> (ListCursor { selected_index: (c.selected_index - 1) as usize, ..c }).move_view().well_placed(),
        c.selected_index < last_index(c.len) ==> (ListCursor { selected_index: (c.selected_index + 1) as usize, ..c }).move_view().well_placed(),
        (ListCursor { selected_index: last_index(c.len), ..c }).move_view().well_placed(),
        (ListCursor { selected_index: 0, scroll_offset: 0, ..c }).well_placed(),
        (ListCursor {
            selected_index: if c.selected_index > page_size(c.visible_height) {
                (c.selected_index - page_size(c.visible_height)) as usize
            } else {
                0
            },
            ..c
        }).move_view().well_placed(),
        (ListCursor {
            selected_index: if c.selected_index + page_size(c.visible_height) < last_index(c.len) {
                (c.selected_index + page_size(c.visible_height)) as usize
            } else {
                last_index(c.len)
            },
            ..c
        }).move_view().well_placed(),
{
}

} // verus!
