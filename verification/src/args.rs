//! What the arguments of a run come to: the characters to test, read from
//! the lines of a `.nam` file or given as they are, and the font file that
//! stands for a family.
//!
//! A line of a `.nam` file holds a code point written as `0x` and hexadecimal
//! digits, then anything after white space, then a comment after `#`.

use vstd::prelude::*;

verus! {

/// Whether `c` is white space to Unicode: a character with the property
/// `White_Space`.
pub open spec fn is_white_space(c: char) -> bool {
    let v = c as u32;
    ||| 0x9 <= v <= 0xd
    ||| v == 0x20
    ||| v == 0x85
    ||| v == 0xa0
    ||| v == 0x1680
    ||| 0x2000 <= v <= 0x200a
    ||| v == 0x2028
    ||| v == 0x2029
    ||| v == 0x202f
    ||| v == 0x205f
    ||| v == 0x3000
}

/// Whether `c` is a space, a tab, a line feed, a form feed or a carriage
/// return.
pub open spec fn is_ascii_white_space(c: char) -> bool {
    c == ' ' || c == '\t' || c == '\n' || c == '\u{c}' || c == '\r'
}

/// The value of a hexadecimal digit, of either case.
pub open spec fn hex_digit(c: char) -> Option<int> {
    let v = c as u32;
    if 0x30 <= v <= 0x39 {
        Some(v - 0x30)
    } else if 0x41 <= v <= 0x46 {
        Some(v - 0x41 + 10)
    } else if 0x61 <= v <= 0x66 {
        Some(v - 0x61 + 10)
    } else {
        None
    }
}

/// Whether every character of `digits` is a hexadecimal digit.
pub open spec fn all_hex(digits: Seq<char>) -> bool {
    forall|i: int| 0 <= i < digits.len() ==> hex_digit(#[trigger] digits[i]) is Some
}

/// The number that hexadecimal digits spell, the most significant first.
pub open spec fn hex_value(digits: Seq<char>) -> int
    decreases digits.len(),
{
    if digits.len() == 0 {
        0
    } else {
        match hex_digit(digits.last()) {
            Some(d) => 16 * hex_value(digits.drop_last()) + d,
            None => 16 * hex_value(digits.drop_last()),
        }
    }
}

/// The number that `text` spells in base 16, as far as it fits 32 bits: an
/// optional `+`, then at least one hexadecimal digit and nothing else.
pub open spec fn radix_16(text: Seq<char>) -> Option<u32> {
    let digits = if text.len() > 0 && text[0] == '+' {
        text.skip(1)
    } else {
        text
    };
    if digits.len() > 0 && all_hex(digits) && hex_value(digits) <= u32::MAX {
        Some(hex_value(digits) as u32)
    } else {
        None
    }
}

/// Whether `v` is a Unicode scalar value, which is what a `char` holds.
pub open spec fn is_scalar_value(v: u32) -> bool {
    v <= 0xd7ff || 0xe000 <= v <= 0x10ffff
}

/// The index of the first `#` of `line` at or after `from`, or the length of
/// `line` where there is none.
pub open spec fn comment_start(line: Seq<char>, from: int) -> int
    decreases line.len() - from,
{
    if from < 0 || from >= line.len() {
        line.len() as int
    } else if line[from] == '#' {
        from
    } else {
        comment_start(line, from + 1)
    }
}

/// `text` without the white space at its start.
pub open spec fn trim_start(text: Seq<char>) -> Seq<char>
    decreases text.len(),
{
    if text.len() > 0 && is_white_space(text.first()) {
        trim_start(text.drop_first())
    } else {
        text
    }
}

/// `text` without the white space at its end.
pub open spec fn trim_end(text: Seq<char>) -> Seq<char>
    decreases text.len(),
{
    if text.len() > 0 && is_white_space(text.last()) {
        trim_end(text.drop_last())
    } else {
        text
    }
}

/// The part of `text` before its first space, tab, line feed, form feed or
/// carriage return; all of it where it has none.
pub open spec fn first_word(text: Seq<char>) -> Seq<char>
    decreases text.len(),
{
    if text.len() == 0 || is_ascii_white_space(text.first()) {
        Seq::empty()
    } else {
        seq![text.first()] + first_word(text.drop_first())
    }
}

/// What of a line counts: the part before the comment, without the white
/// space around it.
pub open spec fn content(line: Seq<char>) -> Seq<char> {
    trim_end(trim_start(line.take(comment_start(line, 0))))
}

/// Why a line that starts like a code point is none.
#[derive(Debug, Clone, Copy, PartialEq, Eq, Structural)]
pub enum NamLineError {
    /// What follows `0x` is no hexadecimal number of 32 bits.
    BadNumber,
    /// The number is no Unicode scalar value.
    BadCodepoint,
}

/// What a line of a `.nam` file says. A line without content, or whose
/// content does not start with `0x`, names no character. Any other names the
/// character whose code point its first word spells after `0x`, and is
/// malformed where that is no number or no character.
pub open spec fn nam_line(line: Seq<char>) -> Result<Option<char>, NamLineError> {
    let raw = content(line);
    if raw.len() < 2 || raw[0] != '0' || raw[1] != 'x' {
        Ok(None)
    } else {
        match radix_16(first_word(raw).skip(2)) {
            None => Err(NamLineError::BadNumber),
            Some(v) => if is_scalar_value(v) {
                Ok(Some(v as char))
            } else {
                Err(NamLineError::BadCodepoint)
            },
        }
    }
}

/// `char::from_u32` of the standard library: the character with the code
/// point `v` where `v` is a Unicode scalar value, and `None` for a surrogate
/// or a number beyond `0x10ffff`.
#[verifier::external_body]
fn char_from_u32(v: u32) -> (c: Option<char>)
    ensures
        c == if is_scalar_value(v) {
            Some(v as char)
        } else {
            None
        },
{
    char::from_u32(v)
}

fn white_space(c: char) -> (b: bool)
    ensures
        b == is_white_space(c),
{
    let v: u32 = c as u32;
    (0x9 <= v && v <= 0xd) || v == 0x20 || v == 0x85 || v == 0xa0 || v == 0x1680 || (0x2000 <= v
        && v <= 0x200a) || v == 0x2028 || v == 0x2029 || v == 0x202f || v == 0x205f || v == 0x3000
}

fn ascii_white_space(c: char) -> (b: bool)
    ensures
        b == is_ascii_white_space(c),
{
    c == ' ' || c == '\t' || c == '\n' || c == '\u{c}' || c == '\r'
}

fn hex_digit_value(c: char) -> (d: Option<u32>)
    ensures
        match d {
            Some(v) => hex_digit(c) == Some(v as int) && v < 16,
            None => hex_digit(c) is None,
        },
{
    let v: u32 = c as u32;
    if 0x30 <= v && v <= 0x39 {
        Some(v - 0x30)
    } else if 0x41 <= v && v <= 0x46 {
        Some(v - 0x41 + 10)
    } else if 0x61 <= v && v <= 0x66 {
        Some(v - 0x61 + 10)
    } else {
        None
    }
}

fn chars_of(text: &str) -> (chars: Vec<char>)
    ensures
        chars@ == text@,
{
    let mut chars: Vec<char> = Vec::new();
    for c in iter: text.chars()
        invariant
            iter.seq() == text@,
            chars@ == text@.take(iter.index() as int),
    {
        proof {
            assert(text@.take(iter.index() + 1) == text@.take(iter.index() as int).push(c));
        }
        chars.push(c);
    }
    proof {
        assert(text@.take(text@.len() as int) == text@);
    }
    chars
}

fn find_comment(chars: &Vec<char>) -> (cut: usize)
    ensures
        cut == comment_start(chars@, 0),
        cut <= chars@.len(),
{
    let mut i: usize = 0;
    while i < chars.len()
        invariant
            i <= chars@.len(),
            comment_start(chars@, 0) == comment_start(chars@, i as int),
        decreases chars@.len() - i,
    {
        if chars[i] == '#' {
            return i;
        }
        i += 1;
    }
    i
}

fn skip_white_space(chars: &Vec<char>, from: usize, to: usize) -> (start: usize)
    requires
        from <= to <= chars@.len(),
    ensures
        from <= start <= to,
        chars@.subrange(start as int, to as int) == trim_start(
            chars@.subrange(from as int, to as int),
        ),
{
    let mut i: usize = from;
    while i < to && white_space(chars[i])
        invariant
            from <= i <= to <= chars@.len(),
            trim_start(chars@.subrange(from as int, to as int)) == trim_start(
                chars@.subrange(i as int, to as int),
            ),
        decreases to - i,
    {
        proof {
            let rest = chars@.subrange(i as int, to as int);
            assert(rest.first() == chars@[i as int]);
            assert(rest.drop_first() == chars@.subrange(i + 1, to as int));
        }
        i += 1;
    }
    proof {
        let rest = chars@.subrange(i as int, to as int);
        if i < to {
            assert(rest.first() == chars@[i as int]);
        }
    }
    i
}

fn drop_white_space(chars: &Vec<char>, from: usize, to: usize) -> (end: usize)
    requires
        from <= to <= chars@.len(),
    ensures
        from <= end <= to,
        chars@.subrange(from as int, end as int) == trim_end(
            chars@.subrange(from as int, to as int),
        ),
{
    let mut i: usize = to;
    while i > from && white_space(chars[i - 1])
        invariant
            from <= i <= to <= chars@.len(),
            trim_end(chars@.subrange(from as int, to as int)) == trim_end(
                chars@.subrange(from as int, i as int),
            ),
        decreases i - from,
    {
        proof {
            let rest = chars@.subrange(from as int, i as int);
            assert(rest.last() == chars@[i - 1]);
            assert(rest.drop_last() == chars@.subrange(from as int, i - 1));
        }
        i -= 1;
    }
    proof {
        let rest = chars@.subrange(from as int, i as int);
        if i > from {
            assert(rest.last() == chars@[i - 1]);
        }
    }
    i
}

fn word_end(chars: &Vec<char>, from: usize, to: usize) -> (stop: usize)
    requires
        from <= to <= chars@.len(),
    ensures
        from <= stop <= to,
        chars@.subrange(from as int, stop as int) == first_word(
            chars@.subrange(from as int, to as int),
        ),
{
    let mut i: usize = from;
    assert(chars@.subrange(from as int, from as int) + first_word(
        chars@.subrange(from as int, to as int),
    ) == first_word(chars@.subrange(from as int, to as int)));
    while i < to && !ascii_white_space(chars[i])
        invariant
            from <= i <= to <= chars@.len(),
            first_word(chars@.subrange(from as int, to as int)) == chars@.subrange(
                from as int,
                i as int,
            ) + first_word(chars@.subrange(i as int, to as int)),
        decreases to - i,
    {
        proof {
            let rest = chars@.subrange(i as int, to as int);
            assert(rest.first() == chars@[i as int]);
            assert(rest.drop_first() == chars@.subrange(i + 1, to as int));
            assert(chars@.subrange(from as int, i as int) + (seq![chars@[i as int]] + first_word(
                rest.drop_first(),
            )) == chars@.subrange(from as int, i + 1) + first_word(rest.drop_first()));
        }
        i += 1;
    }
    proof {
        let rest = chars@.subrange(i as int, to as int);
        if i < to {
            assert(rest.first() == chars@[i as int]);
        }
        assert(chars@.subrange(from as int, i as int) + Seq::<char>::empty() == chars@.subrange(
            from as int,
            i as int,
        ));
    }
    i
}

proof fn hex_value_grows(digits: Seq<char>, k: int)
    requires
        0 <= k <= digits.len(),
    ensures
        0 <= hex_value(digits.take(k)) <= hex_value(digits),
    decreases digits.len() - k,
{
    if k == digits.len() {
        assert(digits.take(k) == digits);
        hex_value_is_not_negative(digits);
    } else {
        hex_value_grows(digits, k + 1);
        let longer = digits.take(k + 1);
        assert(longer.drop_last() == digits.take(k));
        hex_value_is_not_negative(digits.take(k));
    }
}

proof fn hex_value_is_not_negative(digits: Seq<char>)
    ensures
        hex_value(digits) >= 0,
    decreases digits.len(),
{
    if digits.len() > 0 {
        hex_value_is_not_negative(digits.drop_last());
    }
}

fn parse_radix_16(chars: &Vec<char>, from: usize, to: usize) -> (parsed: Option<u32>)
    requires
        from <= to <= chars@.len(),
    ensures
        parsed == radix_16(chars@.subrange(from as int, to as int)),
{
    let ghost text = chars@.subrange(from as int, to as int);
    let mut start: usize = from;
    if from < to && chars[from] == '+' {
        start = from + 1;
    }
    let ghost digits = chars@.subrange(start as int, to as int);
    proof {
        if from < to {
            assert(text[0] == chars@[from as int]);
        }
        if start > from {
            assert(digits == text.skip(1));
        }
    }
    if start == to {
        return None;
    }
    let mut value: u32 = 0;
    let mut i: usize = start;
    assert(digits.take(0) =~= Seq::<char>::empty());
    while i < to
        invariant
            start <= i <= to <= chars@.len(),
            digits == chars@.subrange(start as int, to as int),
            chars@.subrange(from as int, to as int) == text,
            digits == if text.len() > 0 && text[0] == '+' {
                text.skip(1)
            } else {
                text
            },
            all_hex(digits.take(i - start)),
            value == hex_value(digits.take(i - start)),
        decreases to - i,
    {
        let ghost seen = digits.take(i - start);
        let ghost more = digits.take(i - start + 1);
        proof {
            assert(more.drop_last() == seen);
            assert(more.last() == chars@[i as int]);
            assert(digits[i - start] == chars@[i as int]);
            hex_value_grows(digits, i - start + 1);
        }
        match hex_digit_value(chars[i]) {
            None => {
                return None;
            },
            Some(d) => {
                if value > (u32::MAX - d) / 16 {
                    assert(hex_value(more) > u32::MAX);
                    return None;
                }
                value = value * 16 + d;
                proof {
                    assert forall|j: int| 0 <= j < more.len() implies hex_digit(
                        #[trigger] more[j],
                    ) is Some by {
                        if j < seen.len() {
                            assert(more[j] == seen[j]);
                        }
                    }
                }
            },
        }
        i += 1;
    }
    proof {
        assert(digits.take(to - start) == digits);
    }
    Some(value)
}

/// Reads one line of a `.nam` file: the character it names, `None` where it
/// names none, or why it is malformed.
pub fn read_nam_line(line: &str) -> (read: Result<Option<char>, NamLineError>)
    ensures
        read == nam_line(line@),
{
    let chars = chars_of(line);
    let cut = find_comment(&chars);
    let start = skip_white_space(&chars, 0, cut);
    let end = drop_white_space(&chars, start, cut);
    let ghost raw = chars@.subrange(start as int, end as int);
    proof {
        assert(chars@.take(cut as int) == chars@.subrange(0, cut as int));
        assert(raw == content(line@));
    }
    if end - start < 2 || chars[start] != '0' || chars[start + 1] != 'x' {
        proof {
            if raw.len() >= 2 {
                assert(raw[0] == chars@[start as int]);
                assert(raw[1] == chars@[start + 1]);
            }
        }
        return Ok(None);
    }
    let stop = word_end(&chars, start, end);
    proof {
        assert(raw[0] == chars@[start as int]);
        assert(raw[1] == chars@[start + 1]);
        let word = first_word(raw);
        let rest = raw.drop_first();
        assert(word == seq![raw[0]] + first_word(rest));
        assert(rest.first() == raw[1]);
        assert(first_word(rest) == seq![raw[1]] + first_word(rest.drop_first()));
        assert(word.len() >= 2);
        assert(word.skip(2) == chars@.subrange(start + 2, stop as int));
    }
    match parse_radix_16(&chars, start + 2, stop) {
        None => Err(NamLineError::BadNumber),
        Some(v) => match char_from_u32(v) {
            Some(c) => Ok(Some(c)),
            None => Err(NamLineError::BadCodepoint),
        },
    }
}

/// The character that a line of a `.nam` file names, if it names one. The
/// line must not be malformed.
pub fn parse_nam_line(line: &str) -> (named: Option<char>)
    requires
        nam_line(line@) is Ok,
    ensures
        nam_line(line@) == Ok::<Option<char>, NamLineError>(named),
{
    read_nam_line(line).unwrap()
}

/// Whether `chars` stand in ascending order, none of them twice.
pub open spec fn ascending(chars: Seq<char>) -> bool {
    forall|i: int, j: int| 0 <= i < j < chars.len() ==> chars[i] < chars[j]
}

/// The characters to test: those of `given`, each once, in ascending order.
pub fn test_chars(given: &Vec<char>) -> (chars: Vec<char>)
    ensures
        ascending(chars@),
        forall|c: char| chars@.contains(c) <==> given@.contains(c),
{
    let mut chars: Vec<char> = Vec::new();
    let mut i: usize = 0;
    while i < given.len()
        invariant
            i <= given@.len(),
            ascending(chars@),
            forall|c: char| chars@.contains(c) <==> given@.take(i as int).contains(c),
        decreases given@.len() - i,
    {
        let c = given[i];
        let mut at: usize = 0;
        while at < chars.len() && chars[at] < c
            invariant
                at <= chars@.len(),
                forall|k: int| 0 <= k < at ==> chars@[k] < c,
            decreases chars@.len() - at,
        {
            at += 1;
        }
        let ghost before = chars@;
        let ghost seen = given@.take(i as int);
        let ghost more = given@.take(i + 1);
        proof {
            assert(more == seen.push(c));
            assert forall|d: char| more.contains(d) <==> seen.contains(d) || d == c by {
                if more.contains(d) && d != c {
                    let k = choose|k: int| 0 <= k < more.len() && more[k] == d;
                    assert(seen[k] == d);
                }
                if seen.contains(d) {
                    let k = choose|k: int| 0 <= k < seen.len() && seen[k] == d;
                    assert(more[k] == d);
                }
                assert(more[i as int] == c);
            }
        }
        if at < chars.len() && chars[at] == c {
            assert(before.contains(c));
        } else {
            chars.insert(at, c);
            proof {
                let after = chars@;
                assert(after == before.insert(at as int, c));
                assert forall|k: int| at <= k < before.len() implies c < before[k] by {
                    assert(c < before[at as int]);
                    if k > at {
                        assert(before[at as int] < before[k]);
                    }
                }
                assert forall|a: int, b: int| 0 <= a < b < after.len() implies after[a]
                    < after[b] by {
                    if a < at {
                        assert(after[a] == before[a]);
                    } else if a > at {
                        assert(after[a] == before[a - 1]);
                    }
                    if b < at {
                        assert(after[b] == before[b]);
                    } else if b > at {
                        assert(after[b] == before[b - 1]);
                    }
                }
                assert forall|d: char| after.contains(d) <==> before.contains(d) || d == c by {
                    if after.contains(d) && d != c {
                        let k = choose|k: int| 0 <= k < after.len() && after[k] == d;
                        let from_k = if k < at {
                            k
                        } else {
                            k - 1
                        };
                        assert(before[from_k] == d);
                    }
                    if before.contains(d) {
                        let m = choose|m: int| 0 <= m < before.len() && before[m] == d;
                        let to_m = if m < at {
                            m
                        } else {
                            m + 1
                        };
                        assert(after[to_m] == d);
                    }
                    assert(after[at as int] == c);
                }
            }
        }
        i += 1;
    }
    proof {
        assert(given@.take(given@.len() as int) == given@);
    }
    chars
}

/// Whether `needle` occurs in `text` as a run of characters.
pub open spec fn holds_text(text: Seq<char>, needle: Seq<char>) -> bool {
    exists|i: int|
        0 <= i <= text.len() - needle.len() && #[trigger] text.subrange(i, i + needle.len())
            == needle
}

/// `str::contains` of the standard library with a string as its pattern:
/// whether `needle` matches a part of `text`.
#[verifier::external_body]
fn text_contains(text: &str, needle: &str) -> (found: bool)
    ensures
        found == holds_text(text@, needle@),
{
    text.contains(needle)
}

/// Whether a font file of this name is upright: not marked `-Italic`.
pub open spec fn is_upright(name: Seq<char>) -> bool {
    !holds_text(name, "-Italic"@)
}

/// Whether a font file of this name is an upright one marked `-Regular`.
pub open spec fn is_upright_regular(name: Seq<char>) -> bool {
    is_upright(name) && holds_text(name, "-Regular"@)
}

/// How many of `names` are upright.
pub open spec fn upright_count(names: Seq<String>) -> nat
    decreases names.len(),
{
    if names.len() == 0 {
        0
    } else {
        upright_count(names.drop_last()) + if is_upright(names.last()@) {
            1nat
        } else {
            0nat
        }
    }
}

/// The index at or after `from` of the first of `names` that is upright, or
/// the number of names where there is none.
pub open spec fn first_upright(names: Seq<String>, from: int) -> int
    decreases names.len() - from,
{
    if from < 0 || from >= names.len() {
        names.len() as int
    } else if is_upright(names[from]@) {
        from
    } else {
        first_upright(names, from + 1)
    }
}

/// The index at or after `from` of the first of `names` that is upright and
/// marked `-Regular`, or the number of names where there is none.
pub open spec fn first_upright_regular(names: Seq<String>, from: int) -> int
    decreases names.len() - from,
{
    if from < 0 || from >= names.len() {
        names.len() as int
    } else if is_upright_regular(names[from]@) {
        from
    } else {
        first_upright_regular(names, from + 1)
    }
}

/// The font file that stands for a family, by its index among the names of
/// the family's font files: the only upright one; or, where the upright ones
/// are several or none, the first of them that is marked `-Regular`, if there
/// is one.
pub open spec fn exemplar(names: Seq<String>) -> Option<int> {
    if upright_count(names) == 1 {
        Some(first_upright(names, 0))
    } else if first_upright_regular(names, 0) < names.len() {
        Some(first_upright_regular(names, 0))
    } else {
        None
    }
}

/// Picks the font file that stands for a family from the names of its font
/// files.
pub fn pick_exemplar(names: &Vec<String>) -> (picked: Option<usize>)
    ensures
        match picked {
            Some(k) => exemplar(names@) == Some(k as int) && k < names@.len(),
            None => exemplar(names@) is None,
        },
{
    let mut upright: usize = 0;
    let mut first: usize = names.len();
    let mut regular: usize = names.len();
    let mut i: usize = 0;
    assert(names@.take(0) =~= Seq::<String>::empty());
    while i < names.len()
        invariant
            i <= names@.len(),
            upright == upright_count(names@.take(i as int)),
            upright <= i,
            first <= names@.len(),
            regular <= names@.len(),
            first < names@.len() ==> first < i && first_upright(names@, 0) == first,
            first == names@.len() ==> first_upright(names@, 0) == first_upright(names@, i as int),
            first == names@.len() ==> upright == 0,
            regular < names@.len() ==> regular < i && first_upright_regular(names@, 0) == regular,
            regular == names@.len() ==> first_upright_regular(names@, 0) == first_upright_regular(
                names@,
                i as int,
            ),
        decreases names@.len() - i,
    {
        proof {
            let upto = names@.take(i + 1);
            assert(upto.drop_last() == names@.take(i as int));
            assert(upto.last() == names@[i as int]);
        }
        let name = names[i].as_str();
        if !text_contains(name, "-Italic") {
            upright += 1;
            if first == names.len() {
                first = i;
            }
            if regular == names.len() && text_contains(name, "-Regular") {
                regular = i;
            }
        }
        i += 1;
    }
    proof {
        assert(names@.take(names@.len() as int) == names@);
    }
    if upright == 1 {
        Some(first)
    } else if regular < names.len() {
        Some(regular)
    } else {
        None
    }
}

} // verus!
