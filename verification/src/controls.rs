//! The keys of the menus: which command a key gives in each menu, and the
//! lines that tell the user so.

use vstd::prelude::*;
use vstd::string::StringExecFns;
use crate::display::{key_text, Display};
use crate::key::KeyCode;
use crate::text::push_char;
use crate::topology::Position;

verus! {

/// The commands of the main menu.
#[derive(Clone, Copy, Debug, PartialEq, Eq, Structural)]
pub enum MainControls {
    Esc,
    PointerUp,
    PointerDown,
    Select,
    Help,
}

/// The commands of the task list.
#[derive(Clone, Copy, Debug, PartialEq, Eq, Structural)]
pub enum ItemControls {
    Esc,
    PointerUp,
    PointerDown,
    Select,
    IncDepth,
    DecDepth,
    Toggle,
    Save,
    Help,
    Print,
    PrintUnfinished,
    Delete,
    Move,
    Copy,
}

/// The commands while a second task is chosen.
#[derive(Clone, Copy, Debug, PartialEq, Eq, Structural)]
pub enum Selection {
    Esc,
    PointerUp,
    PointerDown,
    Select,
}

/// The commands of the help screen.
#[derive(Clone, Copy, Debug, PartialEq, Eq, Structural)]
pub enum HelpControls {
    Esc,
    Up,
    Down,
}

/// The keys that the commands are bound to.
#[derive(Clone, Copy, Debug, PartialEq, Eq, Structural)]
pub struct Controls {
    pub escape: KeyCode,
    pub up: KeyCode,
    pub down: KeyCode,
    pub select: KeyCode,
    pub right: KeyCode,
    pub left: KeyCode,
    pub toggle: KeyCode,
    pub help: KeyCode,
    pub save: KeyCode,
    pub print: KeyCode,
    pub print_unfinished: KeyCode,
    pub delete: KeyCode,
    pub copy: KeyCode,
    pub move_entry: KeyCode,
}

/// The bindings before the user changes them.
pub open spec fn default_controls() -> Controls {
    Controls {
        escape: KeyCode::Esc,
        up: KeyCode::Up,
        down: KeyCode::Down,
        select: KeyCode::Enter,
        right: KeyCode::Right,
        left: KeyCode::Left,
        toggle: KeyCode::Char(' '),
        help: KeyCode::Char('h'),
        save: KeyCode::Char('s'),
        print: KeyCode::Char('p'),
        print_unfinished: KeyCode::Char('o'),
        delete: KeyCode::Delete,
        copy: KeyCode::Char('c'),
        move_entry: KeyCode::Char('m'),
    }
}

/// The command that a key gives in the main menu: the first in this order
/// that is bound to it.
pub open spec fn main_for(c: Controls, key: KeyCode) -> Option<MainControls> {
    if key == c.escape {
        Some(MainControls::Esc)
    } else if key == c.up {
        Some(MainControls::PointerUp)
    } else if key == c.down {
        Some(MainControls::PointerDown)
    } else if key == c.select {
        Some(MainControls::Select)
    } else if key == c.help {
        Some(MainControls::Help)
    } else {
        None
    }
}

/// The command that a key gives in the task list.
pub open spec fn item_for(c: Controls, key: KeyCode) -> Option<ItemControls> {
    if key == c.escape {
        Some(ItemControls::Esc)
    } else if key == c.up {
        Some(ItemControls::PointerUp)
    } else if key == c.down {
        Some(ItemControls::PointerDown)
    } else if key == c.select {
        Some(ItemControls::Select)
    } else if key == c.right {
        Some(ItemControls::IncDepth)
    } else if key == c.left {
        Some(ItemControls::DecDepth)
    } else if key == c.toggle {
        Some(ItemControls::Toggle)
    } else if key == c.save {
        Some(ItemControls::Save)
    } else if key == c.help {
        Some(ItemControls::Help)
    } else if key == c.print {
        Some(ItemControls::Print)
    } else if key == c.print_unfinished {
        Some(ItemControls::PrintUnfinished)
    } else if key == c.delete {
        Some(ItemControls::Delete)
    } else if key == c.copy {
        Some(ItemControls::Copy)
    } else if key == c.move_entry {
        Some(ItemControls::Move)
    } else {
        None
    }
}

/// The command that a key gives on the help screen.
pub open spec fn help_for(c: Controls, key: KeyCode) -> Option<HelpControls> {
    if key == c.escape {
        Some(HelpControls::Esc)
    } else if key == c.help {
        Some(HelpControls::Esc)
    } else if key == c.up {
        Some(HelpControls::Up)
    } else if key == c.down {
        Some(HelpControls::Down)
    } else {
        None
    }
}

/// The command that a key gives while a second task is chosen.
pub open spec fn selection_for(c: Controls, key: KeyCode) -> Option<Selection> {
    if key == c.escape {
        Some(Selection::Esc)
    } else if key == c.up {
        Some(Selection::PointerUp)
    } else if key == c.down {
        Some(Selection::PointerDown)
    } else if key == c.select {
        Some(Selection::Select)
    } else {
        None
    }
}

/// The position that a key names.
pub open spec fn position_for(c: Controls, key: KeyCode) -> Option<Position> {
    if key == c.up {
        Some(Position::SiblingBefore)
    } else if key == c.down {
        Some(Position::SiblingAfter)
    } else if key == c.left {
        Some(Position::FirstChild)
    } else if key == c.right {
        Some(Position::LastChild)
    } else {
        None
    }
}

/// A key between quotation marks.
pub open spec fn quoted(key: KeyCode) -> Seq<char> {
    seq!['"'] + key_text(key) + seq!['"']
}

/// The line that tells how to open the help screen.
pub open spec fn help_tip_text(c: Controls) -> Seq<char> {
    "Press "@ + quoted(c.help) + " to open the help menu."@
}

/// The line of the task list.
pub open spec fn item_prompt_text(c: Controls) -> Seq<char> {
    "Exit: "@ + quoted(c.escape) + ", Up: "@ + quoted(c.up) + ", Down: "@ + quoted(c.down)
        + ", Increase Depth: "@ + quoted(c.right) + ", Decrease Depth: "@ + quoted(c.left)
        + ", Select: "@ + quoted(c.select) + "\n"@ + help_tip_text(c)
}

/// The line of the help screen.
pub open spec fn help_prompt_text(c: Controls) -> Seq<char> {
    "Exit: "@ + quoted(c.escape) + " or "@ + quoted(c.help) + ", Scroll Up: "@ + quoted(c.up)
        + ", Scroll Down: "@ + quoted(c.down)
}

/// The line while a second task is chosen.
pub open spec fn select_prompt_text(c: Controls) -> Seq<char> {
    "Cancel: "@ + quoted(c.escape) + ", Up: "@ + quoted(c.up) + ", Down: "@ + quoted(c.down)
        + ", Select: "@ + quoted(c.select)
}

/// The line that asks for a position.
pub open spec fn position_prompt_text(c: Controls) -> Seq<char> {
    "Where? first child: "@ + quoted(c.left) + ", last child: "@ + quoted(c.right)
        + ", sibling above: "@ + quoted(c.up) + ", Sibling below: "@ + quoted(c.down)
}

/// The line that asks for a position below the root.
pub open spec fn position_root_prompt_text(c: Controls) -> Seq<char> {
    "Where? first child: "@ + quoted(c.left) + ", last child: "@ + quoted(c.right)
}

/// Appends some words and then a key between quotation marks.
pub(crate) fn say(out: &mut String, words: &str, key: KeyCode)
    ensures
        final(out)@ == old(out)@ + words@ + quoted(key),
{
    out.append(words);
    push_char(out, '"');
    let shown = key.display();
    out.append(shown.as_str());
    push_char(out, '"');
    assert(out@ =~= old(out)@ + words@ + quoted(key));
}

impl Controls {
    pub fn default() -> (r: Controls)
        ensures
            r == default_controls(),
    {
        Controls {
            escape: KeyCode::Esc,
            up: KeyCode::Up,
            down: KeyCode::Down,
            select: KeyCode::Enter,
            right: KeyCode::Right,
            left: KeyCode::Left,
            toggle: KeyCode::Char(' '),
            help: KeyCode::Char('h'),
            save: KeyCode::Char('s'),
            print: KeyCode::Char('p'),
            print_unfinished: KeyCode::Char('o'),
            delete: KeyCode::Delete,
            copy: KeyCode::Char('c'),
            move_entry: KeyCode::Char('m'),
        }
    }

    /// The command that a key gives in the main menu, if it gives one.
    pub fn main(&self, key: KeyCode) -> (r: Option<MainControls>)
        ensures
            r == main_for(*self, key),
    {
        if key == self.escape {
            Some(MainControls::Esc)
        } else if key == self.up {
            Some(MainControls::PointerUp)
        } else if key == self.down {
            Some(MainControls::PointerDown)
        } else if key == self.select {
            Some(MainControls::Select)
        } else if key == self.help {
            Some(MainControls::Help)
        } else {
            None
        }
    }

    /// The command that a key gives in the task list, if it gives one.
    pub fn item(&self, key: KeyCode) -> (r: Option<ItemControls>)
        ensures
            r == item_for(*self, key),
    {
        if key == self.escape {
            Some(ItemControls::Esc)
        } else if key == self.up {
            Some(ItemControls::PointerUp)
        } else if key == self.down {
            Some(ItemControls::PointerDown)
        } else if key == self.select {
            Some(ItemControls::Select)
        } else if key == self.right {
            Some(ItemControls::IncDepth)
        } else if key == self.left {
            Some(ItemControls::DecDepth)
        } else if key == self.toggle {
            Some(ItemControls::Toggle)
        } else if key == self.save {
            Some(ItemControls::Save)
        } else if key == self.help {
            Some(ItemControls::Help)
        } else if key == self.print {
            Some(ItemControls::Print)
        } else if key == self.print_unfinished {
            Some(ItemControls::PrintUnfinished)
        } else if key == self.delete {
            Some(ItemControls::Delete)
        } else if key == self.copy {
            Some(ItemControls::Copy)
        } else if key == self.move_entry {
            Some(ItemControls::Move)
        } else {
            None
        }
    }

    /// The command that a key gives on the help screen, if it gives one.
    pub fn help(&self, key: KeyCode) -> (r: Option<HelpControls>)
        ensures
            r == help_for(*self, key),
    {
        if key == self.escape {
            Some(HelpControls::Esc)
        } else if key == self.help {
            Some(HelpControls::Esc)
        } else if key == self.up {
            Some(HelpControls::Up)
        } else if key == self.down {
            Some(HelpControls::Down)
        } else {
            None
        }
    }

    /// The command that a key gives while a second task is chosen, if it gives one.
    pub fn multi_select(&self, key: KeyCode) -> (r: Option<Selection>)
        ensures
            r == selection_for(*self, key),
    {
        if key == self.escape {
            Some(Selection::Esc)
        } else if key == self.up {
            Some(Selection::PointerUp)
        } else if key == self.down {
            Some(Selection::PointerDown)
        } else if key == self.select {
            Some(Selection::Select)
        } else {
            None
        }
    }

    /// The position that a key names, if it names one.
    pub fn position(&self, key: KeyCode) -> (r: Option<Position>)
        ensures
            r == position_for(*self, key),
    {
        if key == self.up {
            Some(Position::SiblingBefore)
        } else if key == self.down {
            Some(Position::SiblingAfter)
        } else if key == self.left {
            Some(Position::FirstChild)
        } else if key == self.right {
            Some(Position::LastChild)
        } else {
            None
        }
    }

    pub fn help_tip(&self) -> (r: String)
        ensures
            r@ == help_tip_text(*self),
    {
        let mut r = String::new();
        say(&mut r, "Press ", self.help);
        r.append(" to open the help menu.");
        assert(r@ =~= help_tip_text(*self));
        r
    }

    pub fn item_prompt(&self) -> (r: String)
        ensures
            r@ == item_prompt_text(*self),
    {
        let mut r = String::new();
        say(&mut r, "Exit: ", self.escape);
        say(&mut r, ", Up: ", self.up);
        say(&mut r, ", Down: ", self.down);
        say(&mut r, ", Increase Depth: ", self.right);
        say(&mut r, ", Decrease Depth: ", self.left);
        say(&mut r, ", Select: ", self.select);
        r.append("\n");
        let tip = self.help_tip();
        r.append(tip.as_str());
        assert(r@ =~= item_prompt_text(*self));
        r
    }

    pub fn help_prompt(&self) -> (r: String)
        ensures
            r@ == help_prompt_text(*self),
    {
        let mut r = String::new();
        say(&mut r, "Exit: ", self.escape);
        say(&mut r, " or ", self.help);
        say(&mut r, ", Scroll Up: ", self.up);
        say(&mut r, ", Scroll Down: ", self.down);
        assert(r@ =~= help_prompt_text(*self));
        r
    }

    pub fn select_prompt(&self) -> (r: String)
        ensures
            r@ == select_prompt_text(*self),
    {
        let mut r = String::new();
        say(&mut r, "Cancel: ", self.escape);
        say(&mut r, ", Up: ", self.up);
        say(&mut r, ", Down: ", self.down);
        say(&mut r, ", Select: ", self.select);
        assert(r@ =~= select_prompt_text(*self));
        r
    }

    pub fn position_prompt(&self) -> (r: String)
        ensures
            r@ == position_prompt_text(*self),
    {
        let mut r = String::new();
        say(&mut r, "Where? first child: ", self.left);
        say(&mut r, ", last child: ", self.right);
        say(&mut r, ", sibling above: ", self.up);
        say(&mut r, ", Sibling below: ", self.down);
        assert(r@ =~= position_prompt_text(*self));
        r
    }

    pub fn position_root_prompt(&self) -> (r: String)
        ensures
            r@ == position_root_prompt_text(*self),
    {
        let mut r = String::new();
        say(&mut r, "Where? first child: ", self.left);
        say(&mut r, ", last child: ", self.right);
        assert(r@ =~= position_root_prompt_text(*self));
        r
    }

    /// The binding at a position of the settings list, to be changed in place.
    pub fn index_field(&mut self, index: usize) -> (r: Option<&mut KeyCode>)
        ensures
            r is Some <==> index < 14,
            r is Some ==> *r->0 == binding_at(*old(self), index as int),
            r is Some ==> *final(self) == with_binding(*old(self), index as int, *final(r->0)),
            r is None ==> *final(self) == *old(self),
    {
        match index {
            0 => Some(&mut self.escape),
            1 => Some(&mut self.up),
            2 => Some(&mut self.down),
            3 => Some(&mut self.select),
            4 => Some(&mut self.right),
            5 => Some(&mut self.left),
            6 => Some(&mut self.toggle),
            7 => Some(&mut self.help),
            8 => Some(&mut self.save),
            9 => Some(&mut self.print),
            10 => Some(&mut self.print_unfinished),
            11 => Some(&mut self.delete),
            12 => Some(&mut self.copy),
            13 => Some(&mut self.move_entry),
            _ => None,
        }
    }
}

/// The binding at a position of the settings list.
pub open spec fn binding_at(c: Controls, index: int) -> KeyCode {
    if index == 0 {
        c.escape
    } else if index == 1 {
        c.up
    } else if index == 2 {
        c.down
    } else if index == 3 {
        c.select
    } else if index == 4 {
        c.right
    } else if index == 5 {
        c.left
    } else if index == 6 {
        c.toggle
    } else if index == 7 {
        c.help
    } else if index == 8 {
        c.save
    } else if index == 9 {
        c.print
    } else if index == 10 {
        c.print_unfinished
    } else if index == 11 {
        c.delete
    } else if index == 12 {
        c.copy
    } else {
        c.move_entry
    }
}

/// The bindings with another key at a position of the settings list.
pub open spec fn with_binding(c: Controls, index: int, key: KeyCode) -> Controls {
    Controls {
        escape: if index == 0 { key } else { c.escape },
        up: if index == 1 { key } else { c.up },
        down: if index == 2 { key } else { c.down },
        select: if index == 3 { key } else { c.select },
        right: if index == 4 { key } else { c.right },
        left: if index == 5 { key } else { c.left },
        toggle: if index == 6 { key } else { c.toggle },
        help: if index == 7 { key } else { c.help },
        save: if index == 8 { key } else { c.save },
        print: if index == 9 { key } else { c.print },
        print_unfinished: if index == 10 { key } else { c.print_unfinished },
        delete: if index == 11 { key } else { c.delete },
        copy: if index == 12 { key } else { c.copy },
        move_entry: if index == 13 { key } else { c.move_entry },
    }
}

} // verus!
