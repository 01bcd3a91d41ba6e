//! The colours of the screen and how the settings file stores them.

use vstd::prelude::*;
use vstd::string::StringExecFns;
use crate::buffer::color_bytes;
use crate::display::{color_text, Display};
use crate::key::Color;

verus! {

/// The colours of the menus.
#[derive(Clone, Copy, Debug, PartialEq, Eq, Structural)]
pub struct Colors {
    pub default: Color,
    pub background: Color,
    pub pointer: Color,
    pub selected: Color,
}

/// The colours before the user changes them: white on black, the pointer
/// in cyan and what is marked in magenta.
pub open spec fn default_colors() -> Colors {
    Colors {
        default: Color::Rgb { r: 255, g: 255, b: 255 },
        background: Color::Rgb { r: 0, g: 0, b: 0 },
        pointer: Color::Rgb { r: 0, g: 255, b: 255 },
        selected: Color::Rgb { r: 255, g: 0, b: 255 },
    }
}

/// The colour at a position of the settings list.
pub open spec fn color_at(c: Colors, index: int) -> Color {
    if index == 0 {
        c.default
    } else if index == 1 {
        c.background
    } else if index == 2 {
        c.pointer
    } else {
        c.selected
    }
}

/// The colours with another colour at a position of the settings list.
pub open spec fn with_color(c: Colors, index: int, color: Color) -> Colors {
    Colors {
        default: if index == 0 { color } else { c.default },
        background: if index == 1 { color } else { c.background },
        pointer: if index == 2 { color } else { c.pointer },
        selected: if index == 3 { color } else { c.selected },
    }
}

impl Colors {
    pub fn new() -> (r: Colors)
        ensures
            r == default_colors(),
    {
        Colors {
            default: Color::Rgb { r: 255, g: 255, b: 255 },
            background: Color::Rgb { r: 0, g: 0, b: 0 },
            pointer: Color::Rgb { r: 0, g: 255, b: 255 },
            selected: Color::Rgb { r: 255, g: 0, b: 255 },
        }
    }

    /// The colour at a position of the settings list, to be changed in place.
    pub fn index_field(&mut self, index: usize) -> (r: Option<&mut Color>)
        ensures
            r is Some <==> index < 4,
            r is Some ==> *r->0 == color_at(*old(self), index as int),
            r is Some ==> *final(self) == with_color(*old(self), index as int, *final(r->0)),
            r is None ==> *final(self) == *old(self),
    {
        match index {
            0 => Some(&mut self.default),
            1 => Some(&mut self.background),
            2 => Some(&mut self.pointer),
            3 => Some(&mut self.selected),
            _ => None,
        }
    }
}

/// The two colours of the first screens: that of the text and that of the pointer.
pub open spec fn default_pair() -> Seq<Color> {
    seq![Color::Rgb { r: 255, g: 255, b: 255 }, Color::Rgb { r: 0, g: 255, b: 255 }]
}

/// The two colours that the first six bytes of the settings file store, or
/// the defaults where there is no file.
pub fn load_colors(file: Option<&[u8]>) -> (r: [Color; 2])
    requires
        file matches Some(b) ==> b@.len() >= 6,
    ensures
        r@ == (match file {
            Some(b) => seq![
                Color::Rgb { r: b@[0], g: b@[1], b: b@[2] },
                Color::Rgb { r: b@[3], g: b@[4], b: b@[5] },
            ],
            None => default_pair(),
        }),
{
    match file {
        Some(b) => {
            let first = Color::Rgb { r: b[0], g: b[1], b: b[2] };
            let second = Color::Rgb { r: b[3], g: b[4], b: b[5] };
            let r = [first, second];
            assert(r@ =~= seq![first, second]);
            r
        },
        None => {
            let r = [Color::Rgb { r: 255, g: 255, b: 255 }, Color::Rgb { r: 0, g: 255, b: 255 }];
            assert(r@ =~= default_pair());
            r
        },
    }
}

/// The six bytes that store the two colours.
pub fn save_colors(colors: &[Color; 2]) -> (r: Vec<u8>)
    ensures
        r@ == color_bytes(colors@[0]) + color_bytes(colors@[1]),
{
    let mut r: Vec<u8> = Vec::new();
    let mut i: usize = 0;
    while i < 2
        invariant
            i <= 2,
            r@ == (if i == 0 {
                Seq::<u8>::empty()
            } else if i == 1 {
                color_bytes(colors@[0])
            } else {
                color_bytes(colors@[0]) + color_bytes(colors@[1])
            }),
        decreases 2 - i,
    {
        let ghost before = r@;
        match colors[i] {
            Color::Rgb { r: red, g, b } => {
                r.push(red);
                r.push(g);
                r.push(b);
            },
            Color::Named => {
                r.push(255);
                r.push(255);
                r.push(255);
            },
        }
        assert(r@ =~= before + color_bytes(colors@[i as int]));
        i += 1;
    }
    r
}

/// The line of the settings list for one of the two colours; nothing for
/// another index.
pub open spec fn color_line(colors: Seq<Color>, index: int) -> Seq<char> {
    if index == 0 {
        "Normal Color   : "@ + color_text(colors[0])
    } else if index == 1 {
        "Highlight Color: "@ + color_text(colors[1])
    } else {
        Seq::empty()
    }
}

pub fn color_string(colors: &[Color; 2], index: usize) -> (r: String)
    ensures
        r@ == color_line(colors@, index as int),
{
    match index {
        0 => {
            let mut r = String::from_str("Normal Color   : ");
            let shown = colors[0].display();
            r.append(shown.as_str());
            r
        },
        1 => {
            let mut r = String::from_str("Highlight Color: ");
            let shown = colors[1].display();
            r.append(shown.as_str());
            r
        },
        _ => String::new(),
    }
}

/// Sets one of the two colours to its default; another index changes nothing.
pub fn default_color(colors: &mut [Color; 2], index: usize)
    ensures
        final(colors)@ == (if index < 2 {
            old(colors)@.update(index as int, default_pair()[index as int])
        } else {
            old(colors)@
        }),
{
    match index {
        0 => {
            colors[0] = Color::Rgb { r: 255, g: 255, b: 255 };
        },
        1 => {
            colors[1] = Color::Rgb { r: 0, g: 255, b: 255 };
        },
        _ => (),
    }
    assert(colors@ =~= (if index < 2 {
        old(colors)@.update(index as int, default_pair()[index as int])
    } else {
        old(colors)@
    }));
}

} // verus!
