//! Building strings: characters appended, strings repeated, numbers written out.

use vstd::prelude::*;
use vstd::string::StringExecFns;

verus! {

/// `n` copies of `unit`, one after the other.
pub open spec fn repeat(unit: Seq<char>, n: nat) -> Seq<char>
    decreases n,
{
    if n == 0 {
        Seq::empty()
    } else {
        repeat(unit, (n - 1) as nat) + unit
    }
}

/// `n` copies of a text are `n` times as long as the text.
pub proof fn lemma_repeat_len(unit: Seq<char>, n: nat)
    ensures
        repeat(unit, n).len() == n * unit.len(),
    decreases n,
{
    if n > 0 {
        lemma_repeat_len(unit, (n - 1) as nat);
        assert(n * unit.len() == (n - 1) * unit.len() + unit.len()) by (nonlinear_arith)
            requires
                n > 0,
        ;
    } else {
        assert(n * unit.len() == 0) by (nonlinear_arith)
            requires
                n == 0,
        ;
    }
}

/// The character of a decimal digit.
pub open spec fn digit(d: int) -> char
    recommends
        0 <= d <= 9,
{
    ((48 + d) as u8) as char
}

/// A number below 256 in decimal digits.
pub open spec fn u8_text(n: u8) -> Seq<char> {
    if n >= 100 {
        seq![digit(n as int / 100), digit(n as int / 10 % 10), digit(n as int % 10)]
    } else if n >= 10 {
        seq![digit(n as int / 10), digit(n as int % 10)]
    } else {
        seq![digit(n as int)]
    }
}

/// The text with blanks in front of it, as many as it lacks to `width` characters.
pub open spec fn pad_left(text: Seq<char>, width: nat) -> Seq<char> {
    if text.len() < width {
        repeat(seq![' '], (width - text.len()) as nat) + text
    } else {
        text
    }
}

/// The text with blanks behind it, as many as it lacks to `width` characters.
pub open spec fn pad_right(text: Seq<char>, width: nat) -> Seq<char> {
    if text.len() < width {
        text + repeat(seq![' '], (width - text.len()) as nat)
    } else {
        text
    }
}

/// `String::push`: one character more at the end of the string.
#[verifier::external_body]
pub(crate) fn push_char(s: &mut String, c: char)
    ensures
        final(s)@ == old(s)@.push(c),
{
    s.push(c);
}

/// `n` copies of a string.
pub fn repeated(unit: &str, n: usize) -> (r: String)
    ensures
        r@ == repeat(unit@, n as nat),
{
    let mut r = String::new();
    let mut i: usize = 0;
    while i < n
        invariant
            i <= n,
            r@ == repeat(unit@, i as nat),
        decreases n - i,
    {
        r.append(unit);
        i += 1;
    }
    r
}

/// `n` blanks.
pub fn blanks(n: usize) -> (r: String)
    ensures
        r@ == repeat(seq![' '], n as nat),
{
    let mut r = String::new();
    let mut i: usize = 0;
    while i < n
        invariant
            i <= n,
            r@ == repeat(seq![' '], i as nat),
        decreases n - i,
    {
        push_char(&mut r, ' ');
        assert(r@ =~= repeat(seq![' '], (i + 1) as nat));
        i += 1;
    }
    r
}

/// A number below 256 in decimal digits.
pub fn u8_string(n: u8) -> (r: String)
    ensures
        r@ == u8_text(n),
{
    let mut r = String::new();
    if n >= 100 {
        push_char(&mut r, (48 + n / 100) as char);
    }
    if n >= 10 {
        push_char(&mut r, (48 + n / 10 % 10) as char);
    }
    push_char(&mut r, (48 + n % 10) as char);
    assert(r@ =~= u8_text(n));
    r
}

/// The text with blanks in front of it up to `width` characters.
pub fn padded_left(text: &str, width: usize) -> (r: String)
    ensures
        r@ == pad_left(text@, width as nat),
{
    let len = text.unicode_len();
    let mut r = if len < width {
        blanks(width - len)
    } else {
        String::new()
    };
    r.append(text);
    assert(r@ =~= pad_left(text@, width as nat));
    r
}

/// The text with blanks behind it up to `width` characters.
pub fn padded_right(text: &str, width: usize) -> (r: String)
    ensures
        r@ == pad_right(text@, width as nat),
{
    let len = text.unicode_len();
    let mut r = String::from_str(text);
    if len < width {
        let fill = blanks(width - len);
        r.append(fill.as_str());
    }
    assert(r@ =~= pad_right(text@, width as nat));
    r
}

/// The index of the first `c` in a text that holds one.
pub open spec fn first_index(text: Seq<char>, c: char) -> int
    decreases text.len(),
{
    if text.len() == 0 || text[0] == c {
        0
    } else {
        1 + first_index(text.skip(1), c)
    }
}

/// The first `c` of a text stands at `first_index`, and none before it.
pub proof fn lemma_first_index(text: Seq<char>, c: char, i: int)
    requires
        0 <= i < text.len(),
        text[i] == c,
        forall|j: int| 0 <= j < i ==> text[j] != c,
    ensures
        first_index(text, c) == i,
    decreases i,
{
    if i > 0 {
        let rest = text.skip(1);
        assert(rest[i - 1] == c);
        assert forall|j: int| 0 <= j < i - 1 implies rest[j] != c by {
            assert(rest[j] == text[j + 1]);
        }
        lemma_first_index(rest, c, i - 1);
    }
}

/// The line of a menu with what stands behind its first colon replaced: the
/// line up to the colon, then a colon, a blank and `new`.
pub fn relabel(line: &str, new: &str) -> (r: String)
    requires
        line@.contains(':'),
    ensures
        r@ == line@.take(first_index(line@, ':')) + ": "@ + new@,
{
    let len = line.unicode_len();
    let mut i: usize = 0;
    while i < len && line.get_char(i) != ':'
        invariant
            i <= len,
            len == line@.len(),
            line@.contains(':'),
            forall|j: int| 0 <= j < i ==> line@[j] != ':',
        decreases len - i,
    {
        i += 1;
    }
    proof {
        if i == len {
            let j = choose|j: int| 0 <= j < line@.len() && line@[j] == ':';
            assert(false);
        }
        lemma_first_index(line@, ':', i as int);
    }
    let mut r = String::from_str(line.substring_char(0, i));
    r.append(": ");
    r.append(new);
    assert(line@.subrange(0, i as int) =~= line@.take(i as int));
    r
}

} // verus!
