//! The words that show a key, a character or a colour in a menu.

use vstd::prelude::*;
use vstd::string::StringExecFns;
use crate::key::{Color, KeyCode};
use crate::text::{pad_left, padded_left, push_char, u8_string, u8_text};

verus! {

/// How a character is shown: a blank, a comma and a full stop by name.
pub open spec fn char_text(c: char) -> Seq<char> {
    if c == ' ' {
        "Space"@
    } else if c == ',' {
        ",(<)"@
    } else if c == '.' {
        ".(>)"@
    } else {
        seq![c]
    }
}

/// How a key is shown.
pub open spec fn key_text(k: KeyCode) -> Seq<char> {
    match k {
        KeyCode::Backspace => "Backspace"@,
        KeyCode::BackTab => "BackTab"@,
        KeyCode::Char(c) => char_text(c),
        KeyCode::Delete => "Delete"@,
        KeyCode::Down => "Down"@,
        KeyCode::End => "End"@,
        KeyCode::Enter => "Enter"@,
        KeyCode::Esc => "Esc"@,
        KeyCode::F(n) => seq!['F'] + u8_text(n),
        KeyCode::Home => "Home"@,
        KeyCode::Insert => "Insert"@,
        KeyCode::Left => "Left"@,
        KeyCode::Null => "Null"@,
        KeyCode::PageDown => "PageDown"@,
        KeyCode::PageUp => "PageUp"@,
        KeyCode::Right => "Right"@,
        KeyCode::Tab => "Tab"@,
        KeyCode::Up => "Up"@,
    }
}

/// How a colour is shown: its three components, each three characters
/// wide; nothing for a named colour.
pub open spec fn color_text(c: Color) -> Seq<char> {
    match c {
        Color::Rgb { r, g, b } => "r:"@ + pad_left(u8_text(r), 3) + ", g:"@ + pad_left(
            u8_text(g),
            3,
        ) + ", b:"@ + pad_left(u8_text(b), 3),
        Color::Named => Seq::empty(),
    }
}

/// Something that a menu can show.
pub trait Display {
    /// The words shown.
    spec fn text(&self) -> Seq<char>;

    fn display(&self) -> (r: String)
        ensures
            r@ == self.text(),
    ;
}

impl Display for char {
    open spec fn text(&self) -> Seq<char> {
        char_text(*self)
    }

    fn display(&self) -> (r: String) {
        match *self {
            ' ' => String::from_str("Space"),
            ',' => String::from_str(",(<)"),
            '.' => String::from_str(".(>)"),
            _ => {
                let mut r = String::new();
                push_char(&mut r, *self);
                assert(r@ =~= seq![*self]);
                r
            },
        }
    }
}

impl Display for KeyCode {
    open spec fn text(&self) -> Seq<char> {
        key_text(*self)
    }

    fn display(&self) -> (r: String) {
        match self {
            KeyCode::Backspace => String::from_str("Backspace"),
            KeyCode::BackTab => String::from_str("BackTab"),
            KeyCode::Char(character) => character.display(),
            KeyCode::Delete => String::from_str("Delete"),
            KeyCode::Down => String::from_str("Down"),
            KeyCode::End => String::from_str("End"),
            KeyCode::Enter => String::from_str("Enter"),
            KeyCode::Esc => String::from_str("Esc"),
            KeyCode::F(num) => {
                let mut r = String::new();
                push_char(&mut r, 'F');
                let digits = u8_string(*num);
                r.append(digits.as_str());
                assert(r@ =~= seq!['F'] + u8_text(*num));
                r
            },
            KeyCode::Home => String::from_str("Home"),
            KeyCode::Insert => String::from_str("Insert"),
            KeyCode::Left => String::from_str("Left"),
            KeyCode::Null => String::from_str("Null"),
            KeyCode::PageDown => String::from_str("PageDown"),
            KeyCode::PageUp => String::from_str("PageUp"),
            KeyCode::Right => String::from_str("Right"),
            KeyCode::Tab => String::from_str("Tab"),
            KeyCode::Up => String::from_str("Up"),
        }
    }
}

impl Display for Color {
    open spec fn text(&self) -> Seq<char> {
        color_text(*self)
    }

    fn display(&self) -> (r: String) {
        match *self {
            Color::Rgb { r, g, b } => {
                let mut out = String::from_str("r:");
                let red = padded_left(u8_string(r).as_str(), 3);
                out.append(red.as_str());
                out.append(", g:");
                let green = padded_left(u8_string(g).as_str(), 3);
                out.append(green.as_str());
                out.append(", b:");
                let blue = padded_left(u8_string(b).as_str(), 3);
                out.append(blue.as_str());
                out
            },
            Color::Named => String::new(),
        }
    }
}

} // verus!
