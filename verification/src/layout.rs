//! Where things stand on the screen: the pointer of a list, the part of a
//! list that a window of some height shows, and the sizes of the windows.

use vstd::prelude::*;

verus! {

/// A place or a size on the screen.
#[derive(Clone, Copy, Debug, PartialEq, Eq, Structural)]
pub struct Coord {
    pub x: i32,
    pub y: i32,
}

/// The window of the lists: it leaves three lines at the bottom of the screen.
#[derive(Clone, Copy, Debug)]
pub struct MainUiUpdate {}

impl MainUiUpdate {
    /// The size of the window on a screen of the size `new_size`.
    pub fn size_update(&mut self, new_size: &Coord, size: &mut Coord)
        requires
            new_size.y >= i32::MIN + 3,
        ensures
            *final(size) == (Coord { x: new_size.x, y: (new_size.y - 3) as i32 }),
    {
        *size = Coord { x: new_size.x, y: new_size.y - 3 };
    }
}

/// The window of the prompt: the three lines at the bottom, as wide as the screen.
#[derive(Clone, Copy, Debug)]
pub struct PromptUpdate {}

impl PromptUpdate {
    /// The place and the size of the window on a screen of the size `new_size`.
    pub fn size_update(&mut self, new_size: &Coord, pos: &mut Coord, size: &mut Coord)
        requires
            new_size.y >= i32::MIN + 3,
        ensures
            *final(pos) == (Coord { x: old(pos).x, y: (new_size.y - 3) as i32 }),
            *final(size) == (Coord { x: new_size.x, y: old(size).y }),
    {
        pos.y = new_size.y - 3;
        size.x = new_size.x;
    }
}

/// The line that a window of `height` lines shows first, of a list of `len`
/// lines with the pointer on line `pointer`: the list is shown from its top
/// while it fits or the pointer stands in the upper half of the window; else
/// the pointer is kept in the middle, until the end of the list is in sight.
pub open spec fn scroll_offset(height: int, len: int, pointer: int) -> int {
    let half = height / 2;
    if height < len && pointer > half {
        if pointer > len - (half + 1) {
            len - height
        } else {
            pointer - half
        }
    } else {
        0
    }
}

/// The state of a list on the screen: the line that the pointer is on, and
/// the line that was marked, if one was.
#[derive(Clone, Copy, Debug, PartialEq, Eq, Structural)]
pub struct ListUi {
    pub pointer: usize,
    pub selected: Option<usize>,
}

impl ListUi {
    /// A list with the pointer on its first line and no line marked.
    pub fn new() -> (r: ListUi)
        ensures
            r == (ListUi { pointer: 0, selected: None }),
    {
        ListUi { pointer: 0, selected: None }
    }

    pub fn pointer(&self) -> (r: usize)
        ensures
            r == self.pointer,
    {
        self.pointer
    }

    pub fn set_pointer_no_update(&mut self, new: usize)
        ensures
            *final(self) == (ListUi { pointer: new, selected: old(self).selected }),
    {
        self.pointer = new;
    }

    /// Marks the line that the pointer is on.
    pub fn select(&mut self)
        ensures
            *final(self) == (ListUi {
                pointer: old(self).pointer,
                selected: Some(old(self).pointer),
            }),
    {
        self.selected = Some(self.pointer);
    }

    pub fn selected(&self) -> (r: Option<usize>)
        ensures
            r == self.selected,
    {
        self.selected
    }

    pub fn deselect(&mut self)
        ensures
            *final(self) == (ListUi { pointer: old(self).pointer, selected: None }),
    {
        self.selected = None;
    }

    /// Moves the pointer `inc` lines down a list of `len` lines, and on from
    /// the top behind the last line.
    pub fn inc_pointer(&mut self, inc: usize, len: usize)
        requires
            len > 0,
            old(self).pointer + inc <= usize::MAX,
        ensures
            final(self).pointer == (old(self).pointer + inc) % (len as int),
            final(self).selected == old(self).selected,
    {
        self.pointer = (self.pointer + inc) % len;
    }

    /// Moves the pointer `dec` lines up a list of `len` lines, and on from
    /// the bottom above the first line.
    pub fn dec_pointer(&mut self, dec: usize, len: usize)
        requires
            len > 0,
            old(self).pointer + len <= usize::MAX,
        ensures
            final(self).pointer == (old(self).pointer + (len - dec % len)) % (len as int),
            final(self).selected == old(self).selected,
    {
        let size = len;
        self.pointer = (self.pointer + (size - (dec % size))) % size;
    }

    /// The line that a window of `height` lines shows first.
    pub fn offset(&self, height: i32, len: usize) -> (r: i32)
        requires
            0 <= height,
            len <= i32::MAX,
            self.pointer <= i32::MAX,
        ensures
            r == scroll_offset(height as int, len as int, self.pointer as int),
    {
        let half = height / 2;
        if (height < len as i32) && (self.pointer > half as usize) {
            if self.pointer > (len - (half as usize + 1)) {
                len as i32 - height
            } else {
                self.pointer as i32 - half
            }
        } else {
            0
        }
    }

    /// Puts a pointer that stands behind a list of `len` lines on `len`.
    pub fn refresh(&mut self, len: usize)
        ensures
            final(self).pointer == (if old(self).pointer > len {
                len
            } else {
                old(self).pointer
            }),
            final(self).selected == old(self).selected,
    {
        if self.pointer > len {
            self.pointer = len;
        }
    }
}

/// What the screen shows: the task list or the settings.
#[derive(Clone, Copy, Debug, PartialEq, Eq, Structural)]
pub enum Mode {
    Entry,
    Config,
}

/// The sizes of the window of the task list and of the window of the
/// settings on a screen of the size `screen`: the one that is shown leaves
/// four lines at the bottom, the other has no size.
pub open spec fn mode_sizes(mode: Mode, screen: Coord) -> (Coord, Coord) {
    let shown = Coord { x: screen.x, y: (screen.y - 4) as i32 };
    let hidden = Coord { x: 0, y: 0 };
    match mode {
        Mode::Entry => (shown, hidden),
        Mode::Config => (hidden, shown),
    }
}

pub fn set_mode(mode: Mode, screen: Coord) -> (r: (Coord, Coord))
    requires
        screen.y >= i32::MIN + 4,
    ensures
        r == mode_sizes(mode, screen),
{
    let shown = Coord { x: screen.x, y: screen.y - 4 };
    let hidden = Coord { x: 0, y: 0 };
    match mode {
        Mode::Entry => (shown, hidden),
        Mode::Config => (hidden, shown),
    }
}

/// The size of the window of the task list, and the place and the size of
/// the prompt, after the screen has taken the size `size`: the prompt has
/// the three lines at the bottom.
pub fn resize(size: &Coord) -> (r: (Coord, Coord, Coord))
    requires
        size.y >= i32::MIN + 3,
    ensures
        r.0 == (Coord { x: size.x, y: (size.y - 3) as i32 }),
        r.1 == (Coord { x: 0, y: (size.y - 3) as i32 }),
        r.2 == (Coord { x: size.x, y: 3 }),
{
    (
        Coord { x: size.x, y: size.y - 3 },
        Coord { x: 0, y: size.y - 3 },
        Coord { x: size.x, y: 3 },
    )
}

} // verus!
