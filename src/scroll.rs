use vstd::prelude::*;

verus! {

/// Scroll position of a list view, and whether it follows new items.
#[derive(Clone, Copy, Debug, PartialEq, Eq, Structural)]
pub struct ScrollState {
    pub auto_scroll: bool,
    pub horizontal: u16,
    pub vertical: u16,
}

/// A count as a 16-bit position, truncated to its low bits as a cast does.
pub open spec fn low16(n: int) -> u16 {
    (n % 0x10000) as u16
}

pub open spec fn sat_sub(a: u16, b: u16) -> u16 {
    if a >= b { (a - b) as u16 } else { 0 }
}

pub open spec fn sat_add(a: u16, b: u16) -> u16 {
    if a + b <= u16::MAX { (a + b) as u16 } else { u16::MAX }
}

pub open spec fn min16(a: u16, b: u16) -> u16 {
    if a <= b { a } else { b }
}

impl ScrollState {
    /// At the top, following new items.
    pub fn new() -> (r: ScrollState)
        ensures
            r == (ScrollState { auto_scroll: true, horizontal: 0, vertical: 0 }),
    {
        ScrollState { auto_scroll: true, horizontal: 0, vertical: 0 }
    }

    pub fn as_tuple(&self) -> (r: (u16, u16))
        ensures
            r == (self.vertical, self.horizontal),
    {
        (self.vertical, self.horizontal)
    }

    /// While following, shows the last `visible_height` of `max_items` items.
    pub fn auto_scroll(&mut self, max_items: usize, visible_height: usize)
        ensures
            *final(self) == (if old(self).auto_scroll && max_items > visible_height {
                ScrollState { vertical: low16(max_items - visible_height), ..*old(self) }
            } else {
                *old(self)
            }),
    {
        if self.auto_scroll && max_items > visible_height {
            let d: usize = max_items - visible_height;
            self.vertical = (d % 0x10000) as u16;
        }
    }

    pub fn scroll_to_top(&mut self)
        ensures
            *final(self) == (ScrollState { vertical: 0, auto_scroll: false, ..*old(self) }),
    {
        self.vertical = 0;
        self.lock();
    }

    /// Follow new items again.
    pub fn unlock(&mut self)
        ensures
            *final(self) == (ScrollState { auto_scroll: true, ..*old(self) }),
    {
        self.auto_scroll = true;
    }

    /// Stop following new items.
    pub fn lock(&mut self)
        ensures
            *final(self) == (ScrollState { auto_scroll: false, ..*old(self) }),
    {
        self.auto_scroll = false;
    }

    pub fn scroll_up_by(&mut self, len: u16, _max_scroll: u16)
        ensures
            *final(self) == (ScrollState {
                vertical: sat_sub(old(self).vertical, len),
                auto_scroll: false,
                ..*old(self)
            }),
    {
        self.vertical = self.vertical.saturating_sub(len);
        self.lock();
    }

    pub fn scroll_down_by(&mut self, len: u16, max_scroll: u16)
        ensures
            *final(self) == (ScrollState {
                vertical: min16(sat_add(old(self).vertical, len), max_scroll),
                auto_scroll: false,
                ..*old(self)
            }),
    {
        let v = self.vertical.saturating_add(len);
        self.vertical = if v <= max_scroll { v } else { max_scroll };
        self.lock();
    }

    pub fn scroll_left_by(&mut self, len: u16)
        ensures
            *final(self) == (ScrollState { horizontal: sat_sub(old(self).horizontal, len), ..*old(self) }),
    {
        self.horizontal = self.horizontal.saturating_sub(len);
    }

    pub fn scroll_right_by(&mut self, len: u16)
        ensures
            *final(self) == (ScrollState { horizontal: sat_add(old(self).horizontal, len), ..*old(self) }),
    {
        self.horizontal = self.horizontal.saturating_add(len);
    }

    pub fn scroll_up(&mut self, _max_scroll: u16)
        ensures
            *final(self) == (ScrollState {
                vertical: sat_sub(old(self).vertical, 1),
                auto_scroll: false,
                ..*old(self)
            }),
    {
        self.vertical = self.vertical.saturating_sub(1);
        self.lock();
    }

    pub fn scroll_down(&mut self, max_scroll: u16)
        ensures
            *final(self) == (ScrollState {
                vertical: min16(sat_add(old(self).vertical, 1), max_scroll),
                auto_scroll: false,
                ..*old(self)
            }),
    {
        let v = self.vertical.saturating_add(1);
        self.vertical = if v <= max_scroll { v } else { max_scroll };
        self.lock();
    }

    pub fn scroll_left(&mut self)
        ensures
            *final(self) == (ScrollState {
                horizontal: sat_sub(old(self).horizontal, 1),
                auto_scroll: false,
                ..*old(self)
            }),
    {
        self.horizontal = self.horizontal.saturating_sub(1);
        self.lock();
    }

    pub fn scroll_right(&mut self)
        ensures
            *final(self) == (ScrollState {
                horizontal: sat_add(old(self).horizontal, 1),
                auto_scroll: false,
                ..*old(self)
            }),
    {
        self.horizontal = self.horizontal.saturating_add(1);
        self.lock();
    }

    /// Jumps to `max_scroll` and follows new items again.
    pub fn scroll_to_bottom(&mut self, max_scroll: u16)
        ensures
            *final(self) == (ScrollState { vertical: max_scroll, auto_scroll: true, ..*old(self) }),
    {
        self.vertical = max_scroll;
        self.unlock();
    }

    /// Largest useful vertical position for `items_count` items of which
    /// `visible_height` fit.
    pub fn max_scroll_position(&self, items_count: usize, visible_height: usize) -> (r: u16)
        ensures
            r == (if items_count <= visible_height { 0 } else { low16(items_count - visible_height) }),
    {
        if items_count <= visible_height {
            0
        } else {
            let d: usize = items_count - visible_height;
            (d % 0x10000) as u16
        }
    }
}

/// Scroll positions of the views of the main screen.
pub struct ScrollStates {
    pub activity: ScrollState,
}

impl ScrollStates {
    pub fn new() -> (r: ScrollStates)
        ensures
            r.activity == ScrollState::new_spec(),
    {
        ScrollStates { activity: ScrollState::new() }
    }
}

impl ScrollState {
    pub open spec fn new_spec() -> ScrollState {
        ScrollState { auto_scroll: true, horizontal: 0, vertical: 0 }
    }
}

} // verus!
