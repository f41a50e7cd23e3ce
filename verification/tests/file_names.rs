use find_dups::file_names::{path_safe_c, path_safe_text};

#[test]
fn ordinary_characters_stand_for_themselves() {
    assert_eq!(path_safe_text('a', false), "a");
    assert_eq!(path_safe_text('\u{e9}', false), "\u{e9}");
    assert_eq!(path_safe_c('a'), "a");
    assert_eq!(path_safe_c('#'), "#");
}

#[test]
fn separators_are_escaped_in_four_digits_or_more() {
    assert_eq!(path_safe_text('/', true), "0x002fx");
    assert_eq!(path_safe_text('\\', true), "0x005cx");
    assert_eq!(path_safe_text('\u{0}', true), "0x0000x");
    assert_eq!(path_safe_text('\u{abcd}', true), "0xabcdx");
    assert_eq!(path_safe_text('\u{1f600}', true), "0x1f600x");
    assert_eq!(path_safe_text('\u{10ffff}', true), "0x10ffffx");
}

#[test]
fn the_slash_is_escaped_on_every_platform() {
    assert_eq!(path_safe_c('/'), "0x002fx");
    assert_eq!(path_safe_c('/'), format!("0x{:04x}x", '/' as u32));
}
