//! The commands of the list screen and the keys bound to them.

use vstd::prelude::*;
use vstd::string::StringExecFns;
use crate::buffer::{buff_to_keycode, key_of_bytes, key_written, IntoBuffer};
use crate::display::{key_text, Display};
use crate::key::KeyCode;
use crate::text::{pad_right, padded_right};

verus! {

/// A command of the list screen.
#[derive(Clone, Copy, Debug, PartialEq, Eq, Structural)]
pub enum Control {
    Up,
    Down,
    Left,
    Right,
    Select,
    Esc,
    Del,
    Complete,
    PrintAll,
    PrintUnfinished,
    SetRoot,
    BackRoot,
    Save,
    Edit,
    Config,
    Unused,
}

/// The position of a command in the table of keys; `Unused` has the position
/// behind the last one.
pub open spec fn control_index(c: Control) -> nat {
    match c {
        Control::Up => 0,
        Control::Down => 1,
        Control::Left => 2,
        Control::Right => 3,
        Control::Select => 4,
        Control::Esc => 5,
        Control::Del => 6,
        Control::Complete => 7,
        Control::PrintAll => 8,
        Control::PrintUnfinished => 9,
        Control::SetRoot => 10,
        Control::BackRoot => 11,
        Control::Save => 12,
        Control::Edit => 13,
        Control::Config => 14,
        Control::Unused => 15,
    }
}

/// The command at a position of the table; every position behind the table
/// gives `Unused`.
pub open spec fn control_at(num: nat) -> Control {
    if num == 0 {
        Control::Up
    } else if num == 1 {
        Control::Down
    } else if num == 2 {
        Control::Left
    } else if num == 3 {
        Control::Right
    } else if num == 4 {
        Control::Select
    } else if num == 5 {
        Control::Esc
    } else if num == 6 {
        Control::Del
    } else if num == 7 {
        Control::Complete
    } else if num == 8 {
        Control::PrintAll
    } else if num == 9 {
        Control::PrintUnfinished
    } else if num == 10 {
        Control::SetRoot
    } else if num == 11 {
        Control::BackRoot
    } else if num == 12 {
        Control::Save
    } else if num == 13 {
        Control::Edit
    } else if num == 14 {
        Control::Config
    } else {
        Control::Unused
    }
}

/// The key a command is bound to before the user changes it.
pub open spec fn default_key(c: Control) -> KeyCode {
    match c {
        Control::Up => KeyCode::Up,
        Control::Down => KeyCode::Down,
        Control::Left => KeyCode::Left,
        Control::Right => KeyCode::Right,
        Control::Select => KeyCode::Enter,
        Control::Esc => KeyCode::Esc,
        Control::Del => KeyCode::Delete,
        Control::Complete => KeyCode::Char(' '),
        Control::PrintAll => KeyCode::Char('p'),
        Control::PrintUnfinished => KeyCode::Char('o'),
        Control::SetRoot => KeyCode::Char('.'),
        Control::BackRoot => KeyCode::Char(','),
        Control::Save => KeyCode::Char('s'),
        Control::Edit => KeyCode::Char('e'),
        Control::Config => KeyCode::Char('c'),
        Control::Unused => KeyCode::Null,
    }
}

/// The words that describe a command in the settings list.
pub open spec fn control_text(c: Control) -> Seq<char> {
    match c {
        Control::Up => "Move up"@,
        Control::Down => "Move down"@,
        Control::Left => "Decrease depth"@,
        Control::Right => "Increase depth"@,
        Control::Select => "Select/add task"@,
        Control::Esc => "Quit/back"@,
        Control::Del => "Delete/reset"@,
        Control::Complete => "Toggle completed"@,
        Control::PrintAll => "Save list to txt file"@,
        Control::PrintUnfinished => "Save unfinished to txt file"@,
        Control::SetRoot => "Set entry focus"@,
        Control::BackRoot => "Return focus"@,
        Control::Save => "Save list"@,
        Control::Edit => "Edit entry"@,
        Control::Config => "Open/Close config menu"@,
        Control::Unused => "Unused control"@,
    }
}

impl Control {
    pub fn default(&self) -> (r: KeyCode)
        ensures
            r == default_key(*self),
    {
        match self {
            Control::Up => KeyCode::Up,
            Control::Down => KeyCode::Down,
            Control::Left => KeyCode::Left,
            Control::Right => KeyCode::Right,
            Control::Select => KeyCode::Enter,
            Control::Esc => KeyCode::Esc,
            Control::Del => KeyCode::Delete,
            Control::Complete => KeyCode::Char(' '),
            Control::PrintAll => KeyCode::Char('p'),
            Control::PrintUnfinished => KeyCode::Char('o'),
            Control::SetRoot => KeyCode::Char('.'),
            Control::BackRoot => KeyCode::Char(','),
            Control::Save => KeyCode::Char('s'),
            Control::Edit => KeyCode::Char('e'),
            Control::Config => KeyCode::Char('c'),
            Control::Unused => KeyCode::Null,
        }
    }

    pub fn from_num(num: usize) -> (r: Control)
        ensures
            r == control_at(num as nat),
    {
        match num {
            0 => Control::Up,
            1 => Control::Down,
            2 => Control::Left,
            3 => Control::Right,
            4 => Control::Select,
            5 => Control::Esc,
            6 => Control::Del,
            7 => Control::Complete,
            8 => Control::PrintAll,
            9 => Control::PrintUnfinished,
            10 => Control::SetRoot,
            11 => Control::BackRoot,
            12 => Control::Save,
            13 => Control::Edit,
            14 => Control::Config,
            _ => Control::Unused,
        }
    }

    /// The position of the command in the table of keys.
    pub fn index(&self) -> (r: usize)
        ensures
            r == control_index(*self),
    {
        match self {
            Control::Up => 0,
            Control::Down => 1,
            Control::Left => 2,
            Control::Right => 3,
            Control::Select => 4,
            Control::Esc => 5,
            Control::Del => 6,
            Control::Complete => 7,
            Control::PrintAll => 8,
            Control::PrintUnfinished => 9,
            Control::SetRoot => 10,
            Control::BackRoot => 11,
            Control::Save => 12,
            Control::Edit => 13,
            Control::Config => 14,
            Control::Unused => 15,
        }
    }

    pub fn string(&self) -> (r: &'static str)
        ensures
            r@ == control_text(*self),
    {
        match self {
            Control::Up => "Move up",
            Control::Down => "Move down",
            Control::Left => "Decrease depth",
            Control::Right => "Increase depth",
            Control::Select => "Select/add task",
            Control::Esc => "Quit/back",
            Control::Del => "Delete/reset",
            Control::Complete => "Toggle completed",
            Control::PrintAll => "Save list to txt file",
            Control::PrintUnfinished => "Save unfinished to txt file",
            Control::SetRoot => "Set entry focus",
            Control::BackRoot => "Return focus",
            Control::Save => "Save list",
            Control::Edit => "Edit entry",
            Control::Config => "Open/Close config menu",
            Control::Unused => "Unused control",
        }
    }
}

/// A position and the command at it name each other.
pub proof fn lemma_control_index(c: Control)
    ensures
        control_at(control_index(c)) == c,
        control_index(c) <= 15,
{
}

/// The commands that the table binds, in its order.
pub open spec fn default_keys() -> Seq<KeyCode> {
    Seq::new(15, |i: int| default_key(control_at(i as nat)))
}

/// The first command of the table that a key is bound to, or `Unused`.
pub open spec fn bound_control(keys: Seq<KeyCode>, code: KeyCode, from: nat) -> Control
    decreases keys.len() - from,
{
    if from >= keys.len() {
        Control::Unused
    } else if keys[from as int] == code {
        control_at(from)
    } else {
        bound_control(keys, code, from + 1)
    }
}

/// The five bytes of key number `j` in a settings file.
pub open spec fn slot_bytes(file: Seq<u8>, j: int) -> Seq<u8> {
    file.subrange(6 + 5 * j, 11 + 5 * j)
}

/// The fifteen keys that a settings file stores.
pub open spec fn stored_keys(file: Seq<u8>) -> Option<Seq<KeyCode>> {
    if file.len() >= 81 && forall|j: int|
        0 <= j < 15 ==> key_of_bytes(#[trigger] slot_bytes(file, j)) is Some {
        Some(Seq::new(15, |j: int| key_of_bytes(slot_bytes(file, j))->0))
    } else {
        None
    }
}

/// What is stored of the keys from number `from` on, when the buffer holds `buffer`.
pub open spec fn saved(keys: Seq<KeyCode>, from: nat, buffer: Seq<u8>) -> Seq<u8>
    decreases keys.len() - from,
{
    if from >= keys.len() {
        buffer
    } else {
        let next = key_written(keys[from as int], buffer);
        next + saved(keys, from + 1, next)
    }
}

/// The keys that the fifteen commands are bound to.
pub struct ControlSettings {
    keys: [KeyCode; 15],
}

impl View for ControlSettings {
    type V = Seq<KeyCode>;

    closed spec fn view(&self) -> Seq<KeyCode> {
        self.keys@
    }
}

impl ControlSettings {
    /// The settings with every command on its default key.
    pub fn new() -> (r: ControlSettings)
        ensures
            r@ == default_keys(),
    {
        let r = ControlSettings {
            keys: [
                Control::Up.default(),
                Control::Down.default(),
                Control::Left.default(),
                Control::Right.default(),
                Control::Select.default(),
                Control::Esc.default(),
                Control::Del.default(),
                Control::Complete.default(),
                Control::PrintAll.default(),
                Control::PrintUnfinished.default(),
                Control::SetRoot.default(),
                Control::BackRoot.default(),
                Control::Save.default(),
                Control::Edit.default(),
                Control::Config.default(),
            ],
        };
        assert(r@ =~= default_keys());
        r
    }

    /// The settings with the given keys.
    pub fn from_keys(keys: [KeyCode; 15]) -> (r: ControlSettings)
        ensures
            r@ == keys@,
    {
        ControlSettings { keys }
    }

    /// The command that a key gives: the first in the table bound to it.
    pub fn keycode_to_control(&self, code: KeyCode) -> (r: Control)
        ensures
            self@.len() == 15,
            r == bound_control(self@, code, 0),
    {
        let mut i: usize = 0;
        while i < 15
            invariant
                i <= 15,
                self.keys@.len() == 15,
                bound_control(self@, code, 0) == bound_control(self@, code, i as nat),
            decreases 15 - i,
        {
            if self.keys[i] == code {
                return Control::from_num(i);
            }
            i += 1;
        }
        Control::Unused
    }

    pub fn set_key_at_num(&mut self, num: usize, code: KeyCode)
        requires
            num < 15,
        ensures
            final(self)@ == old(self)@.update(num as int, code),
    {
        self.keys[num] = code;
    }

    pub fn key_at_control(&self, control: Control) -> (r: KeyCode)
        requires
            control != Control::Unused,
        ensures
            r == self@[control_index(control) as int],
    {
        self.keys[control.index()]
    }

    /// The line of the settings list for the command at a position: its
    /// description, 27 characters wide, and the key it is bound to.
    pub fn to_string(&self, num: usize) -> (r: String)
        requires
            num < 15,
        ensures
            r@ == pad_right(control_text(control_at(num as nat)), 27) + ": "@ + key_text(
                self@[num as int],
            ),
    {
        let mut r = padded_right(Control::from_num(num).string(), 27);
        r.append(": ");
        let shown = self.keys[num].display();
        r.append(shown.as_str());
        r
    }

    /// The settings that a settings file stores: fifteen keys of five bytes
    /// each, behind the six bytes of the colours. `None` where the file is
    /// shorter, or where five bytes spell no key.
    pub fn load(file: &[u8]) -> (r: Option<ControlSettings>)
        ensures
            r is Some <==> stored_keys(file@) is Some,
            r is Some ==> r->0@ == stored_keys(file@)->0,
    {
        if file.len() < 81 {
            return None;
        }
        let mut keys: [KeyCode; 15] = [KeyCode::Null; 15];
        let mut i: usize = 0;
        while i < 15
            invariant
                i <= 15,
                file@.len() >= 81,
                keys@.len() == 15,
                forall|j: int|
                    0 <= j < i ==> key_of_bytes(#[trigger] slot_bytes(file@, j)) == Some(keys@[j]),
            decreases 15 - i,
        {
            let at = 6 + 5 * i;
            let mut buffer: [u8; 5] = [0; 5];
            buffer[0] = file[at];
            buffer[1] = file[at + 1];
            buffer[2] = file[at + 2];
            buffer[3] = file[at + 3];
            buffer[4] = file[at + 4];
            assert(buffer@ =~= slot_bytes(file@, i as int));
            match buff_to_keycode(&buffer) {
                Some(k) => {
                    keys[i] = k;
                },
                None => {
                    return None;
                },
            }
            i += 1;
        }
        let r = ControlSettings { keys };
        assert(r@ =~= stored_keys(file@)->0);
        Some(r)
    }

    /// The bytes that store the settings, to stand behind the six bytes of
    /// the colours: each key written in turn into one buffer of five bytes
    /// that starts as zeros, the buffer stored after each key, and once more
    /// at the end.
    pub fn save(&self) -> (r: Vec<u8>)
        ensures
            r@ == saved(self@, 0, seq![0u8, 0u8, 0u8, 0u8, 0u8]),
    {
        let mut out: Vec<u8> = Vec::new();
        let mut buffer: Vec<u8> = Vec::new();
        buffer.push(0);
        buffer.push(0);
        buffer.push(0);
        buffer.push(0);
        buffer.push(0);
        let mut i: usize = 0;
        assert(buffer@ =~= seq![0u8, 0u8, 0u8, 0u8, 0u8]);
        while i < 15
            invariant
                i <= 15,
                self@.len() == 15,
                buffer@.len() == 5,
                saved(self@, 0, seq![0u8, 0u8, 0u8, 0u8, 0u8]) == out@ + saved(
                    self@,
                    i as nat,
                    buffer@,
                ),
            decreases 15 - i,
        {
            self.keys[i].into_buffer(buffer.as_mut_slice());
            let mut j: usize = 0;
            let ghost out0 = out@;
            while j < 5
                invariant
                    j <= 5,
                    buffer@.len() == 5,
                    out@ == out0 + buffer@.take(j as int),
                decreases 5 - j,
            {
                out.push(buffer[j]);
                assert(out@ =~= out0 + buffer@.take(j + 1));
                j += 1;
            }
            assert(buffer@.take(5) =~= buffer@);
            assert(out0 + (buffer@ + saved(self@, (i + 1) as nat, buffer@)) =~= out@ + saved(
                self@,
                (i + 1) as nat,
                buffer@,
            ));
            i += 1;
        }
        let mut j: usize = 0;
        let ghost out0 = out@;
        while j < 5
            invariant
                j <= 5,
                buffer@.len() == 5,
                out@ == out0 + buffer@.take(j as int),
            decreases 5 - j,
        {
            out.push(buffer[j]);
            assert(out@ =~= out0 + buffer@.take(j + 1));
            j += 1;
        }
        assert(buffer@.take(5) =~= buffer@);
        out
    }

    pub fn len(&self) -> (r: usize)
        ensures
            r == 15,
            self@.len() == 15,
    {
        15
    }
}

/// Appends a key and the words behind it.
fn tell(out: &mut String, key: KeyCode, words: &str)
    ensures
        final(out)@ == old(out)@ + key_text(key) + words@,
{
    let shown = key.display();
    out.append(shown.as_str());
    out.append(words);
}

/// The three lines that tell the keys of the task list.
pub open spec fn entry_controls_text(keys: Seq<KeyCode>) -> Seq<char> {
    key_text(keys[0]) + ": move up    "@ + key_text(keys[1]) + ": move down    "@ + key_text(
        keys[3],
    ) + ": increase depth    "@ + key_text(keys[2]) + ": decrease depth    "@ + key_text(keys[9])
        + ": unfinished to txt\n"@ + key_text(keys[4]) + ": add entry    "@ + key_text(keys[6])
        + ": remove entry    "@ + key_text(keys[7]) + ": check entry    "@ + key_text(keys[5])
        + ": save and exit    "@ + key_text(keys[8]) + ": save to txt\n"@ + key_text(keys[10])
        + ": set focus    "@ + key_text(keys[11]) + ": return focus    "@ + key_text(keys[12])
        + ": save    "@ + key_text(keys[13]) + ": edit item    "@ + key_text(keys[14])
        + ": config menu"@
}

/// The line that tells the keys of the settings list.
pub open spec fn config_controls_text(keys: Seq<KeyCode>) -> Seq<char> {
    "\n"@ + key_text(keys[0]) + ": move up    "@ + key_text(keys[1]) + ": move down    "@
        + key_text(keys[4]) + ": change key    "@ + key_text(keys[6]) + ": reset key    "@
        + key_text(keys[5]) + " or "@ + key_text(keys[14]) + ": exit menu\n"@
}

pub fn entry_controls(controls: &ControlSettings) -> (r: String)
    ensures
        r@ == entry_controls_text(controls@),
{
    let mut r = String::new();
    tell(&mut r, controls.key_at_control(Control::Up), ": move up    ");
    tell(&mut r, controls.key_at_control(Control::Down), ": move down    ");
    tell(&mut r, controls.key_at_control(Control::Right), ": increase depth    ");
    tell(&mut r, controls.key_at_control(Control::Left), ": decrease depth    ");
    tell(&mut r, controls.key_at_control(Control::PrintUnfinished), ": unfinished to txt\n");
    tell(&mut r, controls.key_at_control(Control::Select), ": add entry    ");
    tell(&mut r, controls.key_at_control(Control::Del), ": remove entry    ");
    tell(&mut r, controls.key_at_control(Control::Complete), ": check entry    ");
    tell(&mut r, controls.key_at_control(Control::Esc), ": save and exit    ");
    tell(&mut r, controls.key_at_control(Control::PrintAll), ": save to txt\n");
    tell(&mut r, controls.key_at_control(Control::SetRoot), ": set focus    ");
    tell(&mut r, controls.key_at_control(Control::BackRoot), ": return focus    ");
    tell(&mut r, controls.key_at_control(Control::Save), ": save    ");
    tell(&mut r, controls.key_at_control(Control::Edit), ": edit item    ");
    tell(&mut r, controls.key_at_control(Control::Config), ": config menu");
    assert(r@ =~= entry_controls_text(controls@));
    r
}

pub fn config_controls(controls: &ControlSettings) -> (r: String)
    ensures
        r@ == config_controls_text(controls@),
{
    let mut r = String::from_str("\n");
    tell(&mut r, controls.key_at_control(Control::Up), ": move up    ");
    tell(&mut r, controls.key_at_control(Control::Down), ": move down    ");
    tell(&mut r, controls.key_at_control(Control::Select), ": change key    ");
    tell(&mut r, controls.key_at_control(Control::Del), ": reset key    ");
    tell(&mut r, controls.key_at_control(Control::Esc), " or ");
    tell(&mut r, controls.key_at_control(Control::Config), ": exit menu\n");
    assert(r@ =~= config_controls_text(controls@));
    r
}

/// What the prompt at the bottom of the screen asks or tells.
#[derive(Clone, Copy, Debug, PartialEq, Eq, Structural)]
pub enum Prompt {
    NewList,
    NewItem,
    LoadList,
    LoadError,
    EntryControls,
    EditName,
    ConfigControls,
    SetControl,
    SetR,
    SetG,
    SetB,
}

/// The number of a prompt among the prompts.
pub open spec fn prompt_index(p: Prompt) -> int {
    match p {
        Prompt::NewList => 0,
        Prompt::NewItem => 1,
        Prompt::LoadList => 2,
        Prompt::LoadError => 3,
        Prompt::EntryControls => 4,
        Prompt::EditName => 5,
        Prompt::ConfigControls => 6,
        Prompt::SetControl => 7,
        Prompt::SetR => 8,
        Prompt::SetG => 9,
        Prompt::SetB => 10,
    }
}

/// The text of a prompt.
pub open spec fn prompt_text(p: Prompt, keys: Seq<KeyCode>) -> Seq<char> {
    match p {
        Prompt::NewList => "\n\nEnter name of new todo list.\n:"@,
        Prompt::NewItem => "\n\nEnter name of new item.\n:"@,
        Prompt::LoadList => "\n\nEnter name of todo list to load or nothing to make a new one.\n:"@,
        Prompt::LoadError => "\nFile not found.\nEnter name of todo list to load or nothing to make a new one.\n:"@,
        Prompt::EntryControls => entry_controls_text(keys),
        Prompt::EditName => "\n\nEnter new name of item.\n:"@,
        Prompt::ConfigControls => config_controls_text(keys),
        Prompt::SetControl => "\n\nPress key to change control\n:"@,
        Prompt::SetR => "\n\nSet red value 0-255\n:"@,
        Prompt::SetG => "\n\nSet green value 0-255\n:"@,
        Prompt::SetB => "\n\nSet blue value 0-255\n:"@,
    }
}

impl Prompt {
    /// The number of the prompt among the prompts.
    pub fn index(&self) -> (r: usize)
        ensures
            r == prompt_index(*self),
    {
        match self {
            Prompt::NewList => 0,
            Prompt::NewItem => 1,
            Prompt::LoadList => 2,
            Prompt::LoadError => 3,
            Prompt::EntryControls => 4,
            Prompt::EditName => 5,
            Prompt::ConfigControls => 6,
            Prompt::SetControl => 7,
            Prompt::SetR => 8,
            Prompt::SetG => 9,
            Prompt::SetB => 10,
        }
    }

    /// The text of the prompt, with the keys as they are bound.
    pub fn text(&self, controls: &ControlSettings) -> (r: String)
        ensures
            r@ == prompt_text(*self, controls@),
    {
        match self {
            Prompt::NewList => String::from_str("\n\nEnter name of new todo list.\n:"),
            Prompt::NewItem => String::from_str("\n\nEnter name of new item.\n:"),
            Prompt::LoadList => String::from_str(
                "\n\nEnter name of todo list to load or nothing to make a new one.\n:",
            ),
            Prompt::LoadError => String::from_str(
                "\nFile not found.\nEnter name of todo list to load or nothing to make a new one.\n:",
            ),
            Prompt::EntryControls => entry_controls(controls),
            Prompt::EditName => String::from_str("\n\nEnter new name of item.\n:"),
            Prompt::ConfigControls => config_controls(controls),
            Prompt::SetControl => String::from_str("\n\nPress key to change control\n:"),
            Prompt::SetR => String::from_str("\n\nSet red value 0-255\n:"),
            Prompt::SetG => String::from_str("\n\nSet green value 0-255\n:"),
            Prompt::SetB => String::from_str("\n\nSet blue value 0-255\n:"),
        }
    }
}

/// The prompts, each at its number.
pub fn new_prompt(controls: &ControlSettings) -> (r: Vec<String>)
    ensures
        r@.len() == 11,
        r@[0]@ == prompt_text(Prompt::NewList, controls@),
        r@[1]@ == prompt_text(Prompt::NewItem, controls@),
        r@[2]@ == prompt_text(Prompt::LoadList, controls@),
        r@[3]@ == prompt_text(Prompt::LoadError, controls@),
        r@[4]@ == prompt_text(Prompt::EntryControls, controls@),
        r@[5]@ == prompt_text(Prompt::EditName, controls@),
        r@[6]@ == prompt_text(Prompt::ConfigControls, controls@),
        r@[7]@ == prompt_text(Prompt::SetControl, controls@),
        r@[8]@ == prompt_text(Prompt::SetR, controls@),
        r@[9]@ == prompt_text(Prompt::SetG, controls@),
        r@[10]@ == prompt_text(Prompt::SetB, controls@),
{
    let mut r: Vec<String> = Vec::new();
    r.push(Prompt::NewList.text(controls));
    r.push(Prompt::NewItem.text(controls));
    r.push(Prompt::LoadList.text(controls));
    r.push(Prompt::LoadError.text(controls));
    r.push(Prompt::EntryControls.text(controls));
    r.push(Prompt::EditName.text(controls));
    r.push(Prompt::ConfigControls.text(controls));
    r.push(Prompt::SetControl.text(controls));
    r.push(Prompt::SetR.text(controls));
    r.push(Prompt::SetG.text(controls));
    r.push(Prompt::SetB.text(controls));
    r
}

} // verus!
