//! The floating ball's decisions: opening and closing the ring of tool
//! balls over time, telling a click from a drag, and where a drag moves the
//! ball. Times are milliseconds on a monotonic clock; positions are screen
//! pixels. Drawing and the hit tests of the round balls are the caller's.

use vstd::prelude::*;

verus! {

/// How long the ring takes to open or close, in milliseconds.
pub const POP_MS: u64 = 120;

/// How far, in pixels along either axis, the pointer moves before a press
/// becomes a drag.
pub const SLOP: i32 = 8;

/// The ring of tool balls around the main ball.
#[derive(Debug, Clone, Copy, PartialEq, Eq, Structural)]
pub enum Menu {
    Collapsed,
    /// Opening since the given time.
    Expanding(u64),
    Expanded,
    /// Closing since the given time.
    Collapsing(u64),
}

/// A click on the main ball: a closed or closing ring starts to open, an
/// open or opening one starts to close.
pub fn click_main(menu: Menu, now: u64) -> (r: Menu)
    ensures
        r == match menu {
            Menu::Collapsed | Menu::Collapsing(_) => Menu::Expanding(now),
            Menu::Expanded | Menu::Expanding(_) => Menu::Collapsing(now),
        },
{
    match menu {
        Menu::Collapsed | Menu::Collapsing(_) => Menu::Expanding(now),
        Menu::Expanded | Menu::Expanding(_) => Menu::Collapsing(now),
    }
}

/// Milliseconds from `start` to `now`, none where the clock reads earlier.
pub open spec fn elapsed(start: u64, now: u64) -> int {
    if now >= start {
        now - start
    } else {
        0
    }
}

/// An animation tick: a ring that has been opening (closing) for the whole
/// animation is open (closed); the result says whether the animation timer
/// keeps running.
pub fn animation_tick(menu: Menu, now: u64) -> (r: (Menu, bool))
    ensures
        r == animation_tick_spec(menu, now),
{
    match menu {
        Menu::Expanding(s) => {
            if now.saturating_sub(s) >= POP_MS {
                (Menu::Expanded, false)
            } else {
                (menu, true)
            }
        },
        Menu::Collapsing(s) => {
            if now.saturating_sub(s) >= POP_MS {
                (Menu::Collapsed, false)
            } else {
                (menu, true)
            }
        },
        _ => (menu, false),
    }
}

/// Once an opening or closing has run its course, a tick settles it.
pub proof fn lemma_animation_settles(menu: Menu, now: u64)
    requires
        menu matches Menu::Expanding(s) ==> elapsed(s, now) >= POP_MS,
        menu matches Menu::Collapsing(s) ==> elapsed(s, now) >= POP_MS,
    ensures
        !animation_tick_spec(menu, now).1,
        animation_tick_spec(menu, now).0 == match menu {
            Menu::Expanding(_) => Menu::Expanded,
            Menu::Collapsing(_) => Menu::Collapsed,
            _ => menu,
        },
{
}

/// The outcome of [`animation_tick`], as a value.
pub open spec fn animation_tick_spec(menu: Menu, now: u64) -> (Menu, bool) {
    match menu {
        Menu::Expanding(s) => if elapsed(s, now) >= POP_MS {
            (Menu::Expanded, false)
        } else {
            (menu, true)
        },
        Menu::Collapsing(s) => if elapsed(s, now) >= POP_MS {
            (Menu::Collapsed, false)
        } else {
            (menu, true)
        },
        _ => (menu, false),
    }
}

/// The left button's gesture on the ball.
pub struct Drag {
    pub button_down: bool,
    pub dragging: bool,
    pub start_cursor: (i32, i32),
    pub start_win: (i32, i32),
}

/// What a pointer motion does.
#[derive(Debug, Clone, Copy, PartialEq, Eq, Structural)]
pub enum Motion {
    /// Nothing: no button is down, or the pointer is still within the slop.
    Ignore,
    /// Move the window there; `began` when this motion turned the press into
    /// a drag (the ring is then closed at once).
    MoveTo(i32, i32, bool),
}

/// `v` within `lo..=hi`.
pub open spec fn clamp(v: int, lo: int, hi: int) -> int {
    if v < lo {
        lo
    } else if v > hi {
        hi
    } else {
        v
    }
}

pub open spec fn abs(v: int) -> int {
    if v < 0 {
        -v
    } else {
        v
    }
}

fn clamp_i32(v: i32, lo: i32, hi: i32) -> (r: i32)
    requires
        lo <= hi,
    ensures
        r == clamp(v as int, lo as int, hi as int),
{
    if v < lo {
        lo
    } else if v > hi {
        hi
    } else {
        v
    }
}

impl Drag {
    /// No gesture.
    pub fn new() -> (r: Drag)
        ensures
            !r.button_down && !r.dragging,
    {
        Drag { button_down: false, dragging: false, start_cursor: (0, 0), start_win: (0, 0) }
    }

    /// The button went down at `cursor` with the window at `win`.
    pub fn press(&mut self, cursor: (i32, i32), win: (i32, i32))
        ensures
            final(self).button_down && !final(self).dragging,
            final(self).start_cursor == cursor && final(self).start_win == win,
    {
        self.button_down = true;
        self.dragging = false;
        self.start_cursor = cursor;
        self.start_win = win;
    }

    /// The pointer moved to `cursor`. Past the slop the press becomes a drag,
    /// and a drag moves the window by the pointer's offset, kept within
    /// `x_range` and `y_range` (so that half the ball may leave the work area).
    pub fn motion(&mut self, cursor: (i32, i32), x_range: (i32, i32), y_range: (i32, i32)) -> (r: Motion)
        requires
            x_range.0 <= x_range.1,
            y_range.0 <= y_range.1,
            old(self).button_down ==> {
                let dx = cursor.0 - old(self).start_cursor.0;
                let dy = cursor.1 - old(self).start_cursor.1;
                &&& i32::MIN <= dx <= i32::MAX
                &&& i32::MIN <= dy <= i32::MAX
                &&& i32::MIN <= old(self).start_win.0 + dx <= i32::MAX
                &&& i32::MIN <= old(self).start_win.1 + dy <= i32::MAX
            },
        ensures
            final(self).button_down == old(self).button_down,
            final(self).start_cursor == old(self).start_cursor && final(self).start_win == old(self).start_win,
            !old(self).button_down ==> r == Motion::Ignore && final(self).dragging == old(self).dragging,
            old(self).button_down ==> ({
                let dx = cursor.0 - old(self).start_cursor.0;
                let dy = cursor.1 - old(self).start_cursor.1;
                let drag = old(self).dragging || abs(dx) > SLOP || abs(dy) > SLOP;
                &&& final(self).dragging == drag
                &&& !drag ==> r == Motion::Ignore
                &&& drag ==> r == Motion::MoveTo(
                    clamp(old(self).start_win.0 + dx, x_range.0 as int, x_range.1 as int) as i32,
                    clamp(old(self).start_win.1 + dy, y_range.0 as int, y_range.1 as int) as i32,
                    !old(self).dragging,
                )
            }),
    {
        if !self.button_down {
            return Motion::Ignore;
        }
        let dx = cursor.0 - self.start_cursor.0;
        let dy = cursor.1 - self.start_cursor.1;
        let began = !self.dragging && (dx > SLOP || dx < -SLOP || dy > SLOP || dy < -SLOP);
        if began {
            self.dragging = true;
        }
        if self.dragging {
            let x = clamp_i32(self.start_win.0 + dx, x_range.0, x_range.1);
            let y = clamp_i32(self.start_win.1 + dy, y_range.0, y_range.1);
            Motion::MoveTo(x, y, began)
        } else {
            Motion::Ignore
        }
    }

    /// The button went up: whether the gesture was a click (no drag).
    pub fn release(&mut self) -> (click: bool)
        ensures
            click == !old(self).dragging,
            !final(self).button_down && !final(self).dragging,
            final(self).start_cursor == old(self).start_cursor && final(self).start_win == old(self).start_win,
    {
        self.button_down = false;
        let click = !self.dragging;
        self.dragging = false;
        click
    }
}

/// Showing or hiding the ball: hiding closes the ring at once.
pub fn toggle_visibility(visible: bool, menu: Menu) -> (r: (bool, Menu))
    ensures
        r.0 == !visible,
        r.1 == if visible { Menu::Collapsed } else { menu },
{
    if visible {
        (false, Menu::Collapsed)
    } else {
        (true, menu)
    }
}

} // verus!
