use timezoned::normalize::{normalize_string, replace_spaces, trim};

#[test]
fn normalize_trims_raises_and_joins() {
    assert_eq!(normalize_string(" america/new_york "), "AMERICA/NEW_YORK");
    assert_eq!(normalize_string("America/New York"), "AMERICA/NEW_YORK");
    assert_eq!(normalize_string("us"), "US");
    assert_eq!(normalize_string("\t\r\n de \n"), "DE");
}

#[test]
fn normalize_keeps_what_is_in_normal_form() {
    assert_eq!(normalize_string("EUROPE/BERLIN"), "EUROPE/BERLIN");
    assert_eq!(normalize_string("GEOIP"), "GEOIP");
    assert_eq!(normalize_string("ETC/GMT+1"), "ETC/GMT+1");
}

#[test]
fn normalize_of_nothing_is_nothing() {
    assert_eq!(normalize_string(""), "");
    assert_eq!(normalize_string("   "), "");
    assert_eq!(normalize_string("\t\n"), "");
}

#[test]
fn normalize_replaces_every_inner_space() {
    assert_eq!(normalize_string("a  b c"), "A__B_C");
    assert_eq!(normalize_string("  a  "), "A");
}

#[test]
fn normalize_keeps_inner_white_space_that_is_no_space() {
    assert_eq!(normalize_string("a\tb"), "A\tB");
}

#[test]
fn normalize_trims_unicode_white_space() {
    assert_eq!(normalize_string("\u{a0}gb\u{2003}"), "GB");
    assert_eq!(normalize_string("\u{3000}x y\u{85}"), "X_Y");
}

#[test]
fn normalize_raises_letters_and_keeps_the_rest() {
    assert_eq!(normalize_string("az09_-/"), "AZ09_-/");
    assert_eq!(normalize_string("\u{e9}t\u{e9}"), "\u{c9}T\u{c9}");
    assert_eq!(normalize_string("\u{3b1}\u{3b2}"), "\u{391}\u{392}");
    assert_eq!(normalize_string("\u{519c}\u{5386}"), "\u{519c}\u{5386}");
}

#[test]
fn normalize_raises_one_letter_to_several() {
    assert_eq!(normalize_string("tsch\u{fc}\u{df}"), "TSCH\u{dc}SS");
    assert_eq!(normalize_string("\u{fb01}"), "FI");
}

#[test]
fn normalize_raises_a_letter_of_two_bytes_to_one_of_one() {
    let n = normalize_string("\u{131}");
    assert_eq!(n, "I");
    assert_eq!(n.len(), 1);
    assert_eq!(normalize_string("\u{17f}"), "S");
}

#[test]
fn normalize_trims_before_it_raises_and_joins_after() {
    assert_eq!(normalize_string("  \u{e9} \u{e9}  "), "\u{c9}_\u{c9}");
    assert_eq!(normalize_string(" a\u{a0}b "), "A\u{a0}B");
}

#[test]
fn normalize_twice_is_normalize_once() {
    for s in [
        " america/new_york ",
        "a  b c",
        "",
        "  ",
        "x\ty",
        "\u{a0}q r\u{a0}",
        "Etc/GMT+1",
        "\u{e9}t\u{e9}",
        "stra\u{df}e",
        " \u{131} \u{149} ",
    ] {
        let once = normalize_string(s);
        assert_eq!(normalize_string(&once), once);
    }
}

#[test]
fn normal_form_is_uppercase_without_space_or_white_ends() {
    for s in [" a b ", "hello world", "MiXeD cAsE", " \t z ", "\u{e9} \u{df}", "\u{1c6}x"] {
        let n = normalize_string(s);
        assert!(!n.contains(' '));
        assert!(!n.chars().any(|c| c.is_ascii_lowercase()));
        assert_eq!(n.to_uppercase(), n);
        assert_eq!(n.trim(), n);
    }
}

#[test]
fn trim_drops_white_space_at_both_ends_only() {
    assert_eq!(trim("  a b  "), "a b");
    assert_eq!(trim("\t\r\n de \n"), "de");
    assert_eq!(trim("\u{a0}gb\u{2003}"), "gb");
    assert_eq!(trim("x"), "x");
    assert_eq!(trim(""), "");
    assert_eq!(trim(" \t "), "");
    assert_eq!(trim("\u{200b}x"), "\u{200b}x");
}

#[test]
fn trim_agrees_with_the_standard_one() {
    for s in ["", " ", " a", "a ", " a b ", "\u{85}x\u{1680}", "\u{2028}\u{2029}y\u{202f}\u{205f}", "\u{b}\u{c}z\u{3000}", "\u{180e}w"] {
        assert_eq!(trim(s), s.trim());
    }
}

#[test]
fn replace_spaces_puts_an_underscore_for_each_space() {
    assert_eq!(replace_spaces("a b"), "a_b");
    assert_eq!(replace_spaces(" a  b "), "_a__b_");
    assert_eq!(replace_spaces("a\tb\u{a0}c"), "a\tb\u{a0}c");
    assert_eq!(replace_spaces("new york"), "new_york");
    assert_eq!(replace_spaces(""), "");
}
