//! The menus: what a choice of the main menu leads to, the lines of the
//! settings and help screens, and what the user may type into them.

use vstd::prelude::*;
use vstd::string::StringExecFns;
use crate::colors::Colors;
use crate::controls::{quoted, say, Controls};
use crate::display::{color_text, Display};
use crate::entry::Entry;
use crate::formatter::{styled_line, Format, Formatter, FormatterView, Type};
use crate::key::Color;
use crate::layout::ListUi;
use crate::text::push_char;

verus! {

/// What a line of the main menu leads to.
#[derive(Clone, Copy, Debug, PartialEq, Eq, Structural)]
pub enum MenuChoice {
    /// A new list.
    NewList,
    /// A list from a file that the user names.
    LoadFromPath,
    /// The settings.
    Settings,
    /// Another directory.
    ChangeDir,
    /// The list of the file with this number among those of the directory.
    LoadFile(usize),
}

/// What the line that the pointer is on leads to: the first four lines are
/// fixed, the others are the files of the directory.
pub open spec fn choice_at(pointer: usize) -> MenuChoice {
    if pointer == 0 {
        MenuChoice::NewList
    } else if pointer == 1 {
        MenuChoice::LoadFromPath
    } else if pointer == 2 {
        MenuChoice::Settings
    } else if pointer == 3 {
        MenuChoice::ChangeDir
    } else {
        MenuChoice::LoadFile((pointer - 4) as usize)
    }
}

pub fn main_choice(pointer: usize) -> (r: MenuChoice)
    ensures
        r == choice_at(pointer),
{
    match pointer {
        0 => MenuChoice::NewList,
        1 => MenuChoice::LoadFromPath,
        2 => MenuChoice::Settings,
        3 => MenuChoice::ChangeDir,
        _ => MenuChoice::LoadFile(pointer - 4),
    }
}

/// What the main menu says of the line that the pointer is on.
pub open spec fn main_prompt_text(pointer: usize) -> Seq<char> {
    if pointer == 0 {
        "Select to create a new todo list."@
    } else if pointer == 1 {
        "Select to load a todo list."@
    } else if pointer == 2 {
        "Select to change settings."@
    } else if pointer == 3 {
        "Select to change the current directory."@
    } else {
        "Select to open file."@
    }
}

pub fn main_prompt(pointer: usize) -> (r: &'static str)
    ensures
        r@ == main_prompt_text(pointer),
{
    match pointer {
        0 => "Select to create a new todo list.",
        1 => "Select to load a todo list.",
        2 => "Select to change settings.",
        3 => "Select to change the current directory.",
        _ => "Select to open file.",
    }
}

/// Some words, and on the next line how to open the help screen.
pub fn with_tip(text: &str, controls: &Controls) -> (r: String)
    ensures
        r@ == text@ + "\n"@ + crate::controls::help_tip_text(*controls),
{
    let mut r = String::from_str(text);
    r.append("\n");
    let tip = controls.help_tip();
    r.append(tip.as_str());
    r
}

/// The three fixed lines of the main menu.
pub fn main_menu_lines() -> (r: Vec<String>)
    ensures
        r@.len() == 3,
        r@[0]@ == "New Todo List."@,
        r@[1]@ == "Load List."@,
        r@[2]@ == "Settings."@,
{
    let mut r: Vec<String> = Vec::new();
    r.push(String::from_str("New Todo List."));
    r.push(String::from_str("Load List."));
    r.push(String::from_str("Settings."));
    r
}

/// The pointer after a step up in a menu whose first `rows` lines can be
/// pointed at: from the first line to the last of them.
pub open spec fn up_within(pointer: usize, rows: usize) -> int {
    if pointer == 0 {
        rows - 1
    } else {
        pointer - 1
    }
}

/// The pointer after a step down in such a menu: from the last line to the first.
pub open spec fn down_within(pointer: usize, rows: usize) -> int {
    if pointer + 1 >= rows {
        0
    } else {
        pointer + 1
    }
}

/// Moves the pointer a step up among the first `rows` lines.
pub fn step_up(ui: &mut ListUi, rows: usize)
    requires
        rows > 0,
    ensures
        final(ui).pointer == up_within(old(ui).pointer, rows),
        final(ui).selected == old(ui).selected,
{
    if ui.pointer == 0 {
        ui.pointer = rows - 1;
    } else {
        ui.pointer = ui.pointer - 1;
    }
}

/// Moves the pointer a step down among the first `rows` lines.
pub fn step_down(ui: &mut ListUi, rows: usize)
    requires
        rows > 0,
    ensures
        final(ui).pointer == down_within(old(ui).pointer, rows),
        final(ui).selected == old(ui).selected,
{
    if ui.pointer >= rows - 1 {
        ui.pointer = 0;
    } else {
        ui.pointer = ui.pointer + 1;
    }
}

/// The value of a decimal digit, if the character is one.
pub open spec fn digit_value(c: char) -> Option<nat> {
    if '0' <= c && c <= '9' {
        Some((c as u32 - 48) as nat)
    } else {
        None
    }
}

/// The number that digits spell, read after `so_far`; `None` where a
/// character is no digit.
pub open spec fn digits_value(digits: Seq<char>, so_far: nat) -> Option<nat>
    decreases digits.len(),
{
    if digits.len() == 0 {
        Some(so_far)
    } else {
        match digit_value(digits[0]) {
            Some(d) => digits_value(digits.skip(1), so_far * 10 + d),
            None => None,
        }
    }
}

/// The number that a text spells: decimal digits, at least one, after a plus
/// sign or none.
pub open spec fn number_of(text: Seq<char>) -> Option<nat> {
    let digits = if text.len() > 0 && text[0] == '+' {
        text.skip(1)
    } else {
        text
    };
    if digits.len() == 0 {
        None
    } else {
        digits_value(digits, 0)
    }
}

/// What digits spell is no less than what was read before them.
pub proof fn lemma_digits_grow(digits: Seq<char>, so_far: nat)
    requires
        digits_value(digits, so_far) is Some,
    ensures
        digits_value(digits, so_far)->0 >= so_far,
    decreases digits.len(),
{
    if digits.len() > 0 {
        let d = digit_value(digits[0])->0;
        lemma_digits_grow(digits.skip(1), so_far * 10 + d);
    }
}

/// The number that a text spells, if it spells one that fits.
pub fn parse_number(text: &str) -> (r: Option<usize>)
    ensures
        r is Some <==> number_of(text@) is Some && number_of(text@)->0 <= usize::MAX,
        r is Some ==> r->0 == number_of(text@)->0,
{
    let len = text.unicode_len();
    let start: usize = if len > 0 && text.get_char(0) == '+' {
        1
    } else {
        0
    };
    if start == len {
        return None;
    }
    let ghost digits = text@.skip(start as int);
    proof {
        if start == 0 {
            assert(digits =~= text@);
        }
        assert(number_of(text@) == digits_value(digits, 0));
    }
    let mut value: usize = 0;
    let mut i: usize = start;
    while i < len
        invariant
            start <= i <= len,
            len == text@.len(),
            digits == text@.skip(start as int),
            number_of(text@) == digits_value(digits, 0),
            digits_value(digits, 0) == digits_value(text@.skip(i as int), value as nat),
        decreases len - i,
    {
        let c = text.get_char(i);
        proof {
            assert(text@.skip(i as int)[0] == c);
            assert(text@.skip(i as int).skip(1) =~= text@.skip(i + 1));
        }
        if c < '0' || c > '9' {
            return None;
        }
        let d = (c as u32 - 48) as usize;
        if value > (usize::MAX - d) / 10 {
            proof {
                let next = value as nat * 10 + d as nat;
                if digits_value(text@.skip(i + 1), next) is Some {
                    lemma_digits_grow(text@.skip(i + 1), next);
                }
            }
            return None;
        }
        value = value * 10 + d;
        i += 1;
    }
    proof {
        assert(text@.skip(len as int) =~= Seq::<char>::empty());
    }
    Some(value)
}

/// The number below 256 that a text spells, if it spells one.
pub fn parse_u8(text: &str) -> (r: Option<u8>)
    ensures
        r is Some <==> number_of(text@) is Some && number_of(text@)->0 <= 255,
        r is Some ==> r->0 == number_of(text@)->0,
{
    match parse_number(text) {
        Some(n) => if n <= 255 {
            Some(n as u8)
        } else {
            None
        },
        None => None,
    }
}

/// The settings of a formatter after the user has chosen line `pointer` of
/// its menu and typed `input`: the indent on the first line, where the input
/// is a number; on the second and third the glyphs, the first character of
/// the input, where it has one; on the fourth the other style.
pub open spec fn formatter_selected(f: FormatterView, pointer: usize, input: Seq<char>) -> FormatterView {
    if pointer == 0 {
        match number_of(input) {
            Some(n) => if n <= usize::MAX {
                FormatterView { indent: n as usize, ..f }
            } else {
                f
            },
            None => f,
        }
    } else if pointer == 1 {
        if input.len() > 0 {
            FormatterView { completed: input[0], ..f }
        } else {
            f
        }
    } else if pointer == 2 {
        if input.len() > 0 {
            FormatterView { incomplete: input[0], ..f }
        } else {
            f
        }
    } else if pointer == 3 {
        FormatterView {
            form_type: match f.form_type {
                Type::Basic => Type::Fancy,
                Type::Fancy => Type::Basic,
            },
            ..f
        }
    } else {
        f
    }
}

/// Whether the choice of line `pointer` with the input `input` sets anything.
pub open spec fn formatter_sets(pointer: usize, input: Seq<char>) -> bool {
    if pointer == 0 {
        number_of(input) is Some && number_of(input)->0 <= usize::MAX
    } else if pointer == 1 || pointer == 2 {
        input.len() > 0
    } else {
        pointer == 3
    }
}

/// Changes a formatter as the user chose; tells whether anything was set.
pub fn formatter_select(temp: &mut Formatter, pointer: usize, input: &str) -> (r: bool)
    ensures
        final(temp)@ == formatter_selected(old(temp)@, pointer, input@),
        r == formatter_sets(pointer, input@),
{
    match pointer {
        0 => match parse_number(input) {
            Some(num) => {
                temp.set(Some(num), None, None, None);
                true
            },
            None => false,
        },
        1 => if input.unicode_len() > 0 {
            temp.set(None, Some(input.get_char(0)), None, None);
            true
        } else {
            false
        },
        2 => if input.unicode_len() > 0 {
            temp.set(None, None, Some(input.get_char(0)), None);
            true
        } else {
            false
        },
        3 => {
            let new = match temp.get_type() {
                Type::Basic => Type::Fancy,
                Type::Fancy => Type::Basic,
            };
            temp.set(None, None, None, Some(new));
            true
        },
        _ => false,
    }
}

/// The four lines that show what a formatter does: a root that is not done,
/// a child that is done and has a child that is done, and a second child
/// that is not done.
pub fn formatter_example(formatter: &Formatter) -> (r: Vec<String>)
    ensures
        r@.len() == 4,
        r@[0]@ == styled_line(formatter@, "Root"@, false, 0, true),
        r@[1]@ == styled_line(formatter@, "Child 1"@, true, 1, true),
        r@[2]@ == styled_line(formatter@, "Child 1 child"@, true, 2, false),
        r@[3]@ == styled_line(formatter@, "Child 2"@, false, 1, false),
{
    let mut r: Vec<String> = Vec::new();
    r.push(formatter.format(&Entry { name: String::from_str("Root"), complete: false }, 0, true));
    r.push(formatter.format(&Entry { name: String::from_str("Child 1"), complete: true }, 1, true));
    r.push(
        formatter.format(
            &Entry { name: String::from_str("Child 1 child"), complete: true },
            2,
            false,
        ),
    );
    r.push(
        formatter.format(&Entry { name: String::from_str("Child 2"), complete: false }, 1, false),
    );
    r
}

/// A colour of three numbers that the user typed; `None` where one of them
/// is no number below 256.
pub fn typed_color(red: &str, green: &str, blue: &str) -> (r: Option<Color>)
    ensures
        r is Some <==> (number_of(red@) is Some && number_of(red@)->0 <= 255 && number_of(green@)
            is Some && number_of(green@)->0 <= 255 && number_of(blue@) is Some && number_of(
            blue@,
        )->0 <= 255),
        r is Some ==> r->0 == (Color::Rgb {
            r: number_of(red@)->0 as u8,
            g: number_of(green@)->0 as u8,
            b: number_of(blue@)->0 as u8,
        }),
{
    match parse_u8(red) {
        Some(r) => match parse_u8(green) {
            Some(g) => match parse_u8(blue) {
                Some(b) => Some(Color::Rgb { r, g, b }),
                None => None,
            },
            None => None,
        },
        None => None,
    }
}

/// One line of a settings list: a label and a key between quotation marks.
fn key_line(out: &mut Vec<String>, label: &str, key: crate::key::KeyCode)
    ensures
        final(out)@.len() == old(out)@.len() + 1,
        final(out)@.last()@ == label@ + quoted(key),
        forall|i: int| 0 <= i < old(out)@.len() ==> final(out)@[i] == old(out)@[i],
{
    let mut line = String::new();
    say(&mut line, label, key);
    assert(line@ =~= label@ + quoted(key));
    out.push(line);
}

/// The lines of the list of keys in the settings.
pub fn control_menu_lines(c: &Controls) -> (r: Vec<String>)
    ensures
        r@.len() == 14,
        r@[0]@ == "Escape           : "@ + quoted(c.escape),
        r@[1]@ == "Up               : "@ + quoted(c.up),
        r@[2]@ == "Down             : "@ + quoted(c.down),
        r@[3]@ == "Select           : "@ + quoted(c.select),
        r@[4]@ == "Right            : "@ + quoted(c.right),
        r@[5]@ == "Left             : "@ + quoted(c.left),
        r@[6]@ == "Toggle           : "@ + quoted(c.toggle),
        r@[7]@ == "Help             : "@ + quoted(c.help),
        r@[8]@ == "Save             : "@ + quoted(c.save),
        r@[9]@ == "Print            : "@ + quoted(c.print),
        r@[10]@ == "Print Unfinished : "@ + quoted(c.print_unfinished),
        r@[11]@ == "Delete           : "@ + quoted(c.delete),
        r@[12]@ == "Copy             : "@ + quoted(c.copy),
        r@[13]@ == "Move Entry       : "@ + quoted(c.move_entry),
{
    let mut r: Vec<String> = Vec::new();
    key_line(&mut r, "Escape           : ", c.escape);
    key_line(&mut r, "Up               : ", c.up);
    key_line(&mut r, "Down             : ", c.down);
    key_line(&mut r, "Select           : ", c.select);
    key_line(&mut r, "Right            : ", c.right);
    key_line(&mut r, "Left             : ", c.left);
    key_line(&mut r, "Toggle           : ", c.toggle);
    key_line(&mut r, "Help             : ", c.help);
    key_line(&mut r, "Save             : ", c.save);
    key_line(&mut r, "Print            : ", c.print);
    key_line(&mut r, "Print Unfinished : ", c.print_unfinished);
    key_line(&mut r, "Delete           : ", c.delete);
    key_line(&mut r, "Copy             : ", c.copy);
    key_line(&mut r, "Move Entry       : ", c.move_entry);
    r
}

/// One line of the list of colours: a label and the colour.
fn color_menu_line(out: &mut Vec<String>, label: &str, color: Color)
    ensures
        final(out)@.len() == old(out)@.len() + 1,
        final(out)@.last()@ == label@ + color_text(color),
        forall|i: int| 0 <= i < old(out)@.len() ==> final(out)@[i] == old(out)@[i],
{
    let mut line = String::from_str(label);
    let shown = color.display();
    line.append(shown.as_str());
    out.push(line);
}

/// The lines of the list of colours in the settings: the four colours, and
/// three lines that show them.
pub fn color_menu_lines(colors: &Colors) -> (r: Vec<String>)
    ensures
        r@.len() == 8,
        r@[0]@ == "default    : "@ + color_text(colors.default),
        r@[1]@ == "background : "@ + color_text(colors.background),
        r@[2]@ == "pointer    : "@ + color_text(colors.pointer),
        r@[3]@ == "selected   : "@ + color_text(colors.selected),
        r@[4]@ == "\nExamples:"@,
        r@[5]@ == "Default"@,
        r@[6]@ == "Pointer"@,
        r@[7]@ == "Selected"@,
{
    let mut r: Vec<String> = Vec::new();
    color_menu_line(&mut r, "default    : ", colors.default);
    color_menu_line(&mut r, "background : ", colors.background);
    color_menu_line(&mut r, "pointer    : ", colors.pointer);
    color_menu_line(&mut r, "selected   : ", colors.selected);
    r.push(String::from_str("\nExamples:"));
    r.push(String::from_str("Default"));
    r.push(String::from_str("Pointer"));
    r.push(String::from_str("Selected"));
    r
}

/// The kinds of help.
#[derive(Clone, Copy, Debug, PartialEq, Eq, Structural)]
pub enum HelpMenuType {
    Main,
    Item,
    Setting,
}

/// The number of lines of a help screen.
pub open spec fn help_len(kind: HelpMenuType) -> nat {
    match kind {
        HelpMenuType::Main => 4,
        HelpMenuType::Item => 10,
        HelpMenuType::Setting => 6,
    }
}

/// The lines of a help screen.
pub fn help_lines(c: &Controls, kind: HelpMenuType) -> (r: Vec<String>)
    ensures
        r@.len() == help_len(kind),
        kind == HelpMenuType::Main ==> {
            &&& r@[0]@ == "Exit         : "@ + quoted(c.escape)
            &&& r@[1]@ == "Pointer Up   : "@ + quoted(c.up)
            &&& r@[2]@ == "Pointer Down : "@ + quoted(c.down)
            &&& r@[3]@ == "Select       : "@ + quoted(c.select)
        },
        kind == HelpMenuType::Item ==> {
            &&& r@[0]@ == "Exit                       : "@ + quoted(c.escape)
            &&& r@[1]@ == "Pointer Up                 : "@ + quoted(c.up)
            &&& r@[2]@ == "Pointer Down               : "@ + quoted(c.down)
            &&& r@[3]@ == "Increase Depth             : "@ + quoted(c.right)
            &&& r@[4]@ == "Decrease Depth             : "@ + quoted(c.left)
            &&& r@[5]@ == "Select                     : "@ + quoted(c.select)
            &&& r@[6]@ == "Save                       : "@ + quoted(c.save)
            &&& r@[7]@ == "Print into .txt            : "@ + quoted(c.print)
            &&& r@[8]@ == "Print unfinished into .txt : "@ + quoted(c.print_unfinished)
            &&& r@[9]@ == "Delete                     : "@ + quoted(c.delete)
        },
        kind == HelpMenuType::Setting ==> {
            &&& r@[0]@
                == "Settings changed in this menu will only be set when \"Apply Changes\" is selected."@
            &&& r@[1]@ == "\nControls:"@
            &&& r@[2]@ == "Exit         : "@ + quoted(c.escape)
            &&& r@[3]@ == "Pointer Up   : "@ + quoted(c.up)
            &&& r@[4]@ == "Pointer Down : "@ + quoted(c.down)
            &&& r@[5]@ == "Select       : "@ + quoted(c.select)
        },
{
    let mut r: Vec<String> = Vec::new();
    match kind {
        HelpMenuType::Main => {
            key_line(&mut r, "Exit         : ", c.escape);
            key_line(&mut r, "Pointer Up   : ", c.up);
            key_line(&mut r, "Pointer Down : ", c.down);
            key_line(&mut r, "Select       : ", c.select);
        },
        HelpMenuType::Item => {
            key_line(&mut r, "Exit                       : ", c.escape);
            key_line(&mut r, "Pointer Up                 : ", c.up);
            key_line(&mut r, "Pointer Down               : ", c.down);
            key_line(&mut r, "Increase Depth             : ", c.right);
            key_line(&mut r, "Decrease Depth             : ", c.left);
            key_line(&mut r, "Select                     : ", c.select);
            key_line(&mut r, "Save                       : ", c.save);
            key_line(&mut r, "Print into .txt            : ", c.print);
            key_line(&mut r, "Print unfinished into .txt : ", c.print_unfinished);
            key_line(&mut r, "Delete                     : ", c.delete);
        },
        HelpMenuType::Setting => {
            r.push(
                String::from_str(
                    "Settings changed in this menu will only be set when \"Apply Changes\" is selected.",
                ),
            );
            r.push(String::from_str("\nControls:"));
            key_line(&mut r, "Exit         : ", c.escape);
            key_line(&mut r, "Pointer Up   : ", c.up);
            key_line(&mut r, "Pointer Down : ", c.down);
            key_line(&mut r, "Select       : ", c.select);
        },
    }
    r
}

/// The first line that a help screen of `len` lines shows after a step up
/// or down: it does not go above the first line, nor below the last.
pub open spec fn help_scrolled(offset: int, down: bool, len: int) -> int {
    if down {
        if offset < len - 1 {
            offset + 1
        } else {
            offset
        }
    } else {
        if offset != 0 {
            offset - 1
        } else {
            offset
        }
    }
}

pub fn help_scroll(offset: i32, down: bool, len: usize) -> (r: i32)
    requires
        offset > i32::MIN,
        0 < len <= i32::MAX,
    ensures
        r == help_scrolled(offset as int, down, len as int),
{
    if down {
        if offset < (len - 1) as i32 {
            offset + 1
        } else {
            offset
        }
    } else {
        if offset != 0 {
            offset - 1
        } else {
            offset
        }
    }
}

} // verus!
