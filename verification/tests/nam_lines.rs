use find_dups::args::{parse_nam_line, read_nam_line, NamLineError};

#[test]
fn parse_nam_lines() {
    assert_eq!(
        vec![None, None, None, Some('a'), Some('B')],
        vec![
            parse_nam_line(""),
            parse_nam_line("\t#duck"),
            parse_nam_line("00A0"),
            parse_nam_line("0x61"),
            parse_nam_line("0x0042 DESC # mallard"),
        ]
    )
}

#[test]
fn nam_line_takes_both_cases_and_a_sign() {
    assert_eq!(read_nam_line("0xe9"), Ok(Some('\u{e9}')));
    assert_eq!(read_nam_line("0xE9"), Ok(Some('\u{e9}')));
    assert_eq!(read_nam_line("0x+41"), Ok(Some('A')));
    assert_eq!(read_nam_line("0x10FFFF"), Ok(Some('\u{10ffff}')));
    assert_eq!(read_nam_line("0x000000000041"), Ok(Some('A')));
}

#[test]
fn nam_line_is_trimmed_of_unicode_white_space() {
    assert_eq!(read_nam_line("\u{a0}\u{2003}0x41\u{3000}"), Ok(Some('A')));
    assert_eq!(read_nam_line("  \t 0x42\tB"), Ok(Some('B')));
    assert_eq!(read_nam_line(" \u{a0} "), Ok(None));
    assert_eq!(read_nam_line("# 0x41"), Ok(None));
}

#[test]
fn nam_line_word_ends_at_ascii_white_space_only() {
    // a no-break space does not end the number, so it spoils it
    assert_eq!(read_nam_line("0x41\u{a0}A"), Err(NamLineError::BadNumber));
    // a vertical tab is white space to Unicode, but ends no word
    assert_eq!(read_nam_line("0x41\u{b}A"), Err(NamLineError::BadNumber));
    assert_eq!(read_nam_line("0x41\u{c}A"), Ok(Some('A')));
}

#[test]
fn nam_line_without_the_prefix_names_nothing() {
    assert_eq!(read_nam_line("0"), Ok(None));
    assert_eq!(read_nam_line("0X41"), Ok(None));
    assert_eq!(read_nam_line("x41"), Ok(None));
    assert_eq!(read_nam_line("U+0041"), Ok(None));
}

#[test]
fn nam_line_with_a_bad_number() {
    assert_eq!(read_nam_line("0x"), Err(NamLineError::BadNumber));
    assert_eq!(read_nam_line("0x+"), Err(NamLineError::BadNumber));
    assert_eq!(read_nam_line("0x-41"), Err(NamLineError::BadNumber));
    assert_eq!(read_nam_line("0x4G"), Err(NamLineError::BadNumber));
    assert_eq!(read_nam_line("0x100000000"), Err(NamLineError::BadNumber));
    assert_eq!(read_nam_line("0xFFFFFFFF0"), Err(NamLineError::BadNumber));
}

#[test]
fn nam_line_with_a_bad_codepoint() {
    assert_eq!(read_nam_line("0xD800"), Err(NamLineError::BadCodepoint));
    assert_eq!(read_nam_line("0xDFFF"), Err(NamLineError::BadCodepoint));
    assert_eq!(read_nam_line("0x110000"), Err(NamLineError::BadCodepoint));
    assert_eq!(read_nam_line("0xFFFFFFFF"), Err(NamLineError::BadCodepoint));
    assert_eq!(read_nam_line("0xD7FF"), Ok(Some('\u{d7ff}')));
    assert_eq!(read_nam_line("0xE000"), Ok(Some('\u{e000}')));
}

#[test]
fn nam_line_agrees_with_std() {
    for line in ["0x61", " 0x1F600 grin", "0x+7e", "0x0", "\u{2028}0x3b1\u{85}#x"] {
        let raw = line.split('#').next().unwrap().trim();
        let word = raw.split(|c: char| c.is_ascii_whitespace()).next().unwrap();
        let expected = char::from_u32(u32::from_str_radix(&word[2..], 16).unwrap());
        assert_eq!(read_nam_line(line), Ok(expected));
        assert_eq!(parse_nam_line(line), expected);
    }
}
