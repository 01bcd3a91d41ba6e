//! Fixed-width encodings of primitive values, most significant byte first.

use vstd::prelude::*;
use crate::key::{Color, KeyCode};

verus! {

/// The number that four bytes spell, most significant byte first.
pub open spec fn be_value(b: Seq<u8>) -> int
    recommends
        b.len() >= 4,
{
    b[0] as int * 0x100_0000 + b[1] as int * 0x1_0000 + b[2] as int * 0x100 + b[3] as int
}

/// The four bytes of a number, most significant byte first.
pub open spec fn be_bytes(x: u32) -> Seq<u8> {
    seq![
        (x as int / 0x100_0000) as u8,
        (x as int / 0x1_0000 % 0x100) as u8,
        (x as int / 0x100 % 0x100) as u8,
        (x as int % 0x100) as u8,
    ]
}

/// Whether a number is a Unicode scalar value, that is, a `char`.
pub open spec fn is_char_value(v: int) -> bool {
    0 <= v <= 0xD7FF || 0xE000 <= v <= 0x10FFFF
}

/// Decoding undoes encoding.
pub proof fn lemma_be_value_of_bytes(x: u32)
    ensures
        be_bytes(x).len() == 4,
        be_value(be_bytes(x)) == x,
{
}

/// Encoding undoes decoding.
pub proof fn lemma_be_bytes_of_value(b: Seq<u8>)
    requires
        b.len() == 4,
    ensures
        0 <= be_value(b) <= u32::MAX,
        be_bytes(be_value(b) as u32) == b,
{
    let b0 = b[0];
    let b1 = b[1];
    let b2 = b[2];
    let b3 = b[3];
    let v: u32 = (b0 as u32 * 0x100_0000 + b1 as u32 * 0x1_0000 + b2 as u32 * 0x100 + b3 as u32) as u32;
    assert(b0 as u32 * 0x100_0000 + b1 as u32 * 0x1_0000 + b2 as u32 * 0x100 + b3 as u32
        <= 0xffff_ffff) by (bit_vector);
    assert(v == be_value(b));
    assert(v / 0x100_0000 == b0 && v / 0x1_0000 % 0x100 == b1 && v / 0x100 % 0x100 == b2 && v
        % 0x100 == b3) by (bit_vector)
        requires
            v == b0 as u32 * 0x100_0000 + b1 as u32 * 0x1_0000 + b2 as u32 * 0x100 + b3 as u32,
    ;
    assert(be_bytes(v) =~= b);
}

/// `char::from_u32`: the character with the given scalar value, if there is one.
/// The contract claims that the call succeeds exactly on the scalar values and
/// that the character returned has the value given.
#[verifier::external_body]
fn char_from_u32(v: u32) -> (r: Option<char>)
    ensures
        r is Some <==> is_char_value(v as int),
        r is Some ==> r.unwrap() as u32 == v,
{
    core::char::from_u32(v)
}

/// The bytes a value is stored as.
pub trait AsBuffer {
    /// The stored form.
    spec fn buffer(&self) -> Seq<u8>;

    fn as_buffer(&self) -> (r: Box<[u8]>)
        ensures
            r@ == self.buffer(),
    ;
}

impl AsBuffer for bool {
    open spec fn buffer(&self) -> Seq<u8> {
        seq![if *self { 1u8 } else { 0u8 }]
    }

    fn as_buffer(&self) -> (r: Box<[u8]>) {
        let b: u8 = if *self { 1 } else { 0 };
        Box::new([b])
    }
}

impl AsBuffer for u32 {
    open spec fn buffer(&self) -> Seq<u8> {
        be_bytes(*self)
    }

    fn as_buffer(&self) -> (r: Box<[u8]>) {
        let b = split_u32(*self);
        Box::new([b.0, b.1, b.2, b.3])
    }
}

impl AsBuffer for char {
    open spec fn buffer(&self) -> Seq<u8> {
        be_bytes(*self as u32)
    }

    fn as_buffer(&self) -> (r: Box<[u8]>) {
        let b = split_u32(*self as u32);
        Box::new([b.0, b.1, b.2, b.3])
    }
}

impl AsBuffer for u8 {
    open spec fn buffer(&self) -> Seq<u8> {
        seq![*self]
    }

    fn as_buffer(&self) -> (r: Box<[u8]>) {
        Box::new([*self])
    }
}

/// The tag byte of a key.
pub open spec fn key_tag(k: KeyCode) -> u8 {
    match k {
        KeyCode::Backspace => 0,
        KeyCode::BackTab => 1,
        KeyCode::Char(_) => 2,
        KeyCode::Delete => 3,
        KeyCode::Down => 4,
        KeyCode::End => 5,
        KeyCode::Enter => 6,
        KeyCode::Esc => 7,
        KeyCode::F(_) => 8,
        KeyCode::Home => 9,
        KeyCode::Insert => 10,
        KeyCode::Left => 11,
        KeyCode::Null => 12,
        KeyCode::PageDown => 13,
        KeyCode::PageUp => 14,
        KeyCode::Right => 15,
        KeyCode::Tab => 16,
        KeyCode::Up => 17,
    }
}

/// The tag byte of a key.
pub fn tag_of(k: KeyCode) -> (r: u8)
    ensures
        r == key_tag(k),
{
    match k {
        KeyCode::Backspace => 0,
        KeyCode::BackTab => 1,
        KeyCode::Char(_) => 2,
        KeyCode::Delete => 3,
        KeyCode::Down => 4,
        KeyCode::End => 5,
        KeyCode::Enter => 6,
        KeyCode::Esc => 7,
        KeyCode::F(_) => 8,
        KeyCode::Home => 9,
        KeyCode::Insert => 10,
        KeyCode::Left => 11,
        KeyCode::Null => 12,
        KeyCode::PageDown => 13,
        KeyCode::PageUp => 14,
        KeyCode::Right => 15,
        KeyCode::Tab => 16,
        KeyCode::Up => 17,
    }
}

/// What writing a key does to a buffer of five bytes: `Backspace` leaves the
/// buffer as it is, every other key sets the tag, `Char` also the four bytes of
/// the character and `F` the byte of the number.
pub open spec fn key_written(k: KeyCode, old: Seq<u8>) -> Seq<u8>
    recommends
        old.len() == 5,
{
    match k {
        KeyCode::Backspace => old,
        KeyCode::Char(c) => seq![2u8] + be_bytes(c as u32),
        KeyCode::F(n) => old.update(0, 8u8).update(1, n),
        _ => old.update(0, key_tag(k)),
    }
}

/// The three bytes of a colour: its components, or white for a named colour.
pub open spec fn color_bytes(c: Color) -> Seq<u8> {
    match c {
        Color::Rgb { r, g, b } => seq![r, g, b],
        Color::Named => seq![255u8, 255u8, 255u8],
    }
}

impl AsBuffer for KeyCode {
    open spec fn buffer(&self) -> Seq<u8> {
        key_written(*self, seq![0u8, 0u8, 0u8, 0u8, 0u8])
    }

    fn as_buffer(&self) -> (r: Box<[u8]>) {
        let r: Box<[u8]> = match *self {
            KeyCode::Char(c) => {
                let b = split_u32(c as u32);
                Box::new([2, b.0, b.1, b.2, b.3])
            },
            KeyCode::F(n) => Box::new([8, n, 0, 0, 0]),
            _ => Box::new([tag_of(*self), 0, 0, 0, 0]),
        };
        assert(r@ =~= self.buffer());
        r
    }
}

impl AsBuffer for Color {
    open spec fn buffer(&self) -> Seq<u8> {
        color_bytes(*self)
    }

    fn as_buffer(&self) -> (r: Box<[u8]>) {
        match *self {
            Color::Rgb { r, g, b } => Box::new([r, g, b]),
            Color::Named => Box::new([255, 255, 255]),
        }
    }
}

/// Writing a value into a buffer that the caller holds.
pub trait IntoBuffer {
    /// The length the buffer must have.
    spec fn fits(&self, len: nat) -> bool;

    /// The buffer after the write.
    spec fn written(&self, old: Seq<u8>) -> Seq<u8>;

    fn into_buffer(&self, buffer: &mut [u8])
        requires
            self.fits(old(buffer)@.len()),
        ensures
            final(buffer)@ == self.written(old(buffer)@),
    ;
}

impl IntoBuffer for KeyCode {
    open spec fn fits(&self, len: nat) -> bool {
        len == 5
    }

    open spec fn written(&self, old: Seq<u8>) -> Seq<u8> {
        key_written(*self, old)
    }

    fn into_buffer(&self, buf: &mut [u8]) {
        match self {
            KeyCode::Backspace => (),
            KeyCode::BackTab => buf[0] = 1,
            KeyCode::Char(character) => {
                let b = split_u32(*character as u32);
                buf[0] = 2;
                buf[1] = b.0;
                buf[2] = b.1;
                buf[3] = b.2;
                buf[4] = b.3;
                assert(buf@ =~= key_written(*self, old(buf)@));
            },
            KeyCode::Delete => buf[0] = 3,
            KeyCode::Down => buf[0] = 4,
            KeyCode::End => buf[0] = 5,
            KeyCode::Enter => buf[0] = 6,
            KeyCode::Esc => buf[0] = 7,
            KeyCode::F(num) => {
                buf[0] = 8;
                buf[1] = *num;
            },
            KeyCode::Home => buf[0] = 9,
            KeyCode::Insert => buf[0] = 10,
            KeyCode::Left => buf[0] = 11,
            KeyCode::Null => buf[0] = 12,
            KeyCode::PageDown => buf[0] = 13,
            KeyCode::PageUp => buf[0] = 14,
            KeyCode::Right => buf[0] = 15,
            KeyCode::Tab => buf[0] = 16,
            KeyCode::Up => buf[0] = 17,
        }
    }
}

impl IntoBuffer for Color {
    open spec fn fits(&self, len: nat) -> bool {
        len >= 3
    }

    open spec fn written(&self, old: Seq<u8>) -> Seq<u8> {
        color_bytes(*self) + old.skip(3)
    }

    fn into_buffer(&self, buf: &mut [u8]) {
        match *self {
            Color::Rgb { r, g, b } => {
                buf[0] = r;
                buf[1] = g;
                buf[2] = b;
            },
            Color::Named => {
                buf[0] = 255;
                buf[1] = 255;
                buf[2] = 255;
            },
        }
        assert(buf@ =~= color_bytes(*self) + old(buf)@.skip(3));
    }
}

/// The four bytes of a number, most significant first.
pub fn split_u32(x: u32) -> (r: (u8, u8, u8, u8))
    ensures
        seq![r.0, r.1, r.2, r.3] == be_bytes(x),
{
    let b0: u8 = (x >> 24) as u8;
    let b1: u8 = (x >> 16) as u8;
    let b2: u8 = (x >> 8) as u8;
    let b3: u8 = x as u8;
    assert((x >> 24) as u8 == (x / 0x100_0000) as u8) by (bit_vector);
    assert((x >> 16) as u8 == (x / 0x1_0000 % 0x100) as u8) by (bit_vector);
    assert((x >> 8) as u8 == (x / 0x100 % 0x100) as u8) by (bit_vector);
    assert(x as u8 == (x % 0x100) as u8) by (bit_vector);
    assert(seq![b0, b1, b2, b3] =~= be_bytes(x));
    (b0, b1, b2, b3)
}

/// The number that four bytes spell, most significant first.
pub fn join_u32(b0: u8, b1: u8, b2: u8, b3: u8) -> (r: u32)
    ensures
        r == be_value(seq![b0, b1, b2, b3]),
{
    let r: u32 = (b0 as u32) << 24 | (b1 as u32) << 16 | (b2 as u32) << 8 | b3 as u32;
    assert(((b0 as u32) << 24 | (b1 as u32) << 16 | (b2 as u32) << 8 | b3 as u32) as int
        == b0 as int * 0x100_0000 + b1 as int * 0x1_0000 + b2 as int * 0x100 + b3 as int)
        by (bit_vector);
    r
}

/// A stored flag: any byte but zero is `true`.
pub fn buff_to_bool(buffer: &[u8]) -> (r: bool)
    requires
        buffer@.len() >= 1,
    ensures
        r == (buffer@[0] != 0),
{
    buffer[0] != 0
}

/// A stored number: the first four bytes, most significant first.
pub fn buff_to_u32(buffer: &[u8]) -> (r: u32)
    requires
        buffer@.len() >= 4,
    ensures
        r == be_value(buffer@),
{
    join_u32(buffer[0], buffer[1], buffer[2], buffer[3])
}

/// A stored character: the scalar value in the first four bytes, or `None`
/// where they spell no scalar value.
pub fn buff_to_char(buffer: &[u8]) -> (r: Option<char>)
    requires
        buffer@.len() >= 4,
    ensures
        r is Some <==> is_char_value(be_value(buffer@)),
        r is Some ==> r.unwrap() as u32 == be_value(buffer@),
{
    let temp = join_u32(buffer[0], buffer[1], buffer[2], buffer[3]);
    char_from_u32(temp)
}

/// A stored byte.
pub fn buff_to_u8(buffer: &[u8]) -> (r: u8)
    requires
        buffer@.len() >= 1,
    ensures
        r == buffer@[0],
{
    buffer[0]
}

/// The key that five stored bytes stand for.
pub open spec fn key_of_bytes(b: Seq<u8>) -> Option<KeyCode>
    recommends
        b.len() >= 5,
{
    match b[0] {
        0u8 => Some(KeyCode::Backspace),
        1u8 => Some(KeyCode::BackTab),
        2u8 => if is_char_value(be_value(b.skip(1))) {
            Some(KeyCode::Char((be_value(b.skip(1)) as u32) as char))
        } else {
            None
        },
        3u8 => Some(KeyCode::Delete),
        4u8 => Some(KeyCode::Down),
        5u8 => Some(KeyCode::End),
        6u8 => Some(KeyCode::Enter),
        7u8 => Some(KeyCode::Esc),
        8u8 => Some(KeyCode::F(b[1])),
        9u8 => Some(KeyCode::Home),
        10u8 => Some(KeyCode::Insert),
        11u8 => Some(KeyCode::Left),
        12u8 => Some(KeyCode::Null),
        13u8 => Some(KeyCode::PageDown),
        14u8 => Some(KeyCode::PageUp),
        15u8 => Some(KeyCode::Right),
        16u8 => Some(KeyCode::Tab),
        17u8 => Some(KeyCode::Up),
        _ => None,
    }
}

/// A stored key: the tag in the first byte decides, and `None` comes back for
/// an unknown tag or a character that is no scalar value.
pub fn buff_to_keycode(buffer: &[u8]) -> (r: Option<KeyCode>)
    requires
        buffer@.len() >= 5,
    ensures
        r == key_of_bytes(buffer@),
{
    match buffer[0] {
        0 => Some(KeyCode::Backspace),
        1 => Some(KeyCode::BackTab),
        2 => {
            let v = join_u32(buffer[1], buffer[2], buffer[3], buffer[4]);
            assert(be_value(buffer@.skip(1)) == v);
            match char_from_u32(v) {
                Some(c) => {
                    proof {
                        vstd::utf8::char_u32_cast(c, v);
                    }
                    Some(KeyCode::Char(c))
                },
                None => None,
            }
        },
        3 => Some(KeyCode::Delete),
        4 => Some(KeyCode::Down),
        5 => Some(KeyCode::End),
        6 => Some(KeyCode::Enter),
        7 => Some(KeyCode::Esc),
        8 => Some(KeyCode::F(buffer[1])),
        9 => Some(KeyCode::Home),
        10 => Some(KeyCode::Insert),
        11 => Some(KeyCode::Left),
        12 => Some(KeyCode::Null),
        13 => Some(KeyCode::PageDown),
        14 => Some(KeyCode::PageUp),
        15 => Some(KeyCode::Right),
        16 => Some(KeyCode::Tab),
        17 => Some(KeyCode::Up),
        _ => None,
    }
}

/// A stored colour: the three components.
pub fn buff_to_color(buffer: &[u8]) -> (r: Color)
    requires
        buffer@.len() >= 3,
    ensures
        r == (Color::Rgb { r: buffer@[0], g: buffer@[1], b: buffer@[2] }),
{
    Color::Rgb { r: buffer[0], g: buffer[1], b: buffer[2] }
}

/// A key written into a cleared buffer is read back as it was.
pub proof fn lemma_key_round_trip(k: KeyCode)
    ensures
        k.buffer().len() == 5,
        key_of_bytes(k.buffer()) == Some(k),
{
    match k {
        KeyCode::Char(c) => {
            let b = k.buffer();
            assert(b.skip(1) =~= be_bytes(c as u32));
            lemma_be_value_of_bytes(c as u32);
            vstd::utf8::char_is_scalar(c);
            vstd::utf8::char_u32_cast(c, c as u32);
        },
        _ => {},
    }
}

/// An RGB colour is read back as it was stored.
pub proof fn lemma_color_round_trip(r: u8, g: u8, b: u8)
    ensures
        color_bytes(Color::Rgb { r, g, b }).len() == 3,
        color_bytes(Color::Rgb { r, g, b })[0] == r,
        color_bytes(Color::Rgb { r, g, b })[1] == g,
        color_bytes(Color::Rgb { r, g, b })[2] == b,
{
}

} // verus!
