//! Names for the files written about one character.

use vstd::prelude::*;

verus! {

/// The hexadecimal digit, in lower case, for a number below 16.
pub open spec fn hex_char(d: int) -> char {
    if d < 10 {
        (0x30 + d) as char
    } else {
        (0x61 + d - 10) as char
    }
}

/// Sixteen to the power `k`, for the few powers that a code point reaches.
pub open spec fn sixteen_to(k: int) -> int {
    if k <= 0 {
        1
    } else if k == 1 {
        0x10
    } else if k == 2 {
        0x100
    } else if k == 3 {
        0x1000
    } else if k == 4 {
        0x1_0000
    } else {
        0x10_0000
    }
}

/// How many hexadecimal digits stand for the code point `v`: as many as it
/// takes, and four at least.
pub open spec fn hex_width(v: int) -> int {
    if v < 0x1_0000 {
        4
    } else if v < 0x10_0000 {
        5
    } else {
        6
    }
}

/// The code point `v` in hexadecimal digits of lower case, the most
/// significant first, with zeros in front up to four digits.
pub open spec fn hex_digits(v: int) -> Seq<char> {
    Seq::new(
        hex_width(v) as nat,
        |i: int| hex_char((v / sixteen_to(hex_width(v) - 1 - i)) % 16),
    )
}

/// How a path separator is written in a file name: `0x`, its code point in
/// hexadecimal, and `x`.
pub open spec fn escaped(c: char) -> Seq<char> {
    seq!['0', 'x'] + hex_digits(c as int) + seq!['x']
}

/// The text that stands for `c` in a file name: `c` itself, unless it
/// separates the parts of a path.
pub open spec fn path_safe(c: char, separator: bool) -> Seq<char> {
    if separator {
        escaped(c)
    } else {
        seq![c]
    }
}

/// `std::path::is_separator`: whether `c` separates the parts of a path on
/// the platform the program runs on. Which characters do is the platform's
/// matter, so nothing is said of the answer.
#[verifier::external_body]
fn is_path_separator(c: char) -> (separator: bool) {
    std::path::is_separator(c)
}

/// `String::push`: appends one character.
#[verifier::external_body]
fn push_char(text: &mut String, c: char)
    ensures
        final(text)@ == old(text)@.push(c),
{
    text.push(c)
}

fn hex_char_of(d: u32) -> (c: char)
    requires
        d < 16,
    ensures
        c == hex_char(d as int),
{
    if d < 10 {
        (0x30 + d as u8) as char
    } else {
        (0x61 + (d as u8 - 10)) as char
    }
}

fn power_of_sixteen(k: u32) -> (p: u32)
    requires
        k <= 5,
    ensures
        p == sixteen_to(k as int),
{
    if k == 0 {
        1
    } else if k == 1 {
        0x10
    } else if k == 2 {
        0x100
    } else if k == 3 {
        0x1000
    } else if k == 4 {
        0x1_0000
    } else {
        0x10_0000
    }
}

/// The text that stands for `c` in a file name, given whether `c` separates
/// the parts of a path.
pub fn path_safe_text(c: char, separator: bool) -> (text: String)
    ensures
        text@ == path_safe(c, separator),
{
    let mut text = String::new();
    if !separator {
        push_char(&mut text, c);
        assert(text@ == seq![c]);
        return text;
    }
    let v: u32 = c as u32;
    let width: u32 = if v < 0x1_0000 {
        4
    } else if v < 0x10_0000 {
        5
    } else {
        6
    };
    push_char(&mut text, '0');
    push_char(&mut text, 'x');
    let mut i: u32 = 0;
    while i < width
        invariant
            i <= width,
            width == hex_width(v as int),
            text@ == seq!['0', 'x'] + hex_digits(v as int).take(i as int),
        decreases width - i,
    {
        let digit = hex_char_of((v / power_of_sixteen(width - 1 - i)) % 16);
        push_char(&mut text, digit);
        proof {
            let digits = hex_digits(v as int);
            assert(digits[i as int] == digit);
            assert(digits.take(i + 1) == digits.take(i as int).push(digit));
        }
        i += 1;
    }
    assert(hex_digits(v as int).take(width as int) == hex_digits(v as int));
    push_char(&mut text, 'x');
    text
}

/// The text that stands for `c` in a file name on this platform: `c` itself,
/// or the escaped form where the platform takes `c` for a path separator.
pub fn path_safe_c(c: char) -> (text: String)
    ensures
        text@ == path_safe(c, false) || text@ == path_safe(c, true),
{
    let separator = is_path_separator(c);
    path_safe_text(c, separator)
}

} // verus!
