use icalnigma::text::{
    chars_of, equal, escape_commas, is_whitespace_char, join, same_text, split, starts_with,
    string_of, tokenize, trim, trim_end, trim_start, CharClass,
};

fn strings(parts: Vec<Vec<char>>) -> Vec<String> {
    parts.iter().map(|part| string_of(part)).collect()
}

#[test]
fn chars_and_strings_convert_both_ways() {
    let chars = chars_of("Hörsaal 1");
    assert_eq!(chars.len(), 9);
    assert_eq!(chars[1], 'ö');
    assert_eq!(string_of(&chars), "Hörsaal 1");
    assert_eq!(string_of(&[]), "");
}

#[test]
fn equal_compares_whole_strings() {
    assert!(equal("märz", "märz"));
    assert!(!equal("märz", "marz"));
    assert!(!equal("mai", "main"));
    assert!(equal("", ""));
}

#[test]
fn same_text_and_prefix() {
    let chars = chars_of("erstellt am 01.02.21");
    assert!(same_text(&chars, "erstellt am 01.02.21"));
    assert!(!same_text(&chars, "erstellt am"));
    assert!(starts_with(&chars, "erstellt am"));
    assert!(starts_with(&chars, ""));
    assert!(!starts_with(&chars, "Erstellt"));
    assert!(!starts_with(&chars_of("ab"), "abc"));
}

#[test]
fn whitespace_is_the_unicode_property() {
    for c in [' ', '\t', '\n', '\u{b}', '\u{c}', '\r', '\u{85}', '\u{a0}', '\u{1680}', '\u{2000}',
        '\u{200a}', '\u{2028}', '\u{2029}', '\u{202f}', '\u{205f}', '\u{3000}'] {
        assert!(is_whitespace_char(c));
        assert!(c.is_whitespace());
    }
    for c in ['a', '-', '\u{200b}', '\u{8}', '\u{e}', '\u{feff}', '0'] {
        assert!(!is_whitespace_char(c));
    }
}

#[test]
fn whitespace_agrees_with_std_on_every_char() {
    let mut code: u32 = 0;
    while code <= 0x10ffff {
        if let Some(c) = char::from_u32(code) {
            assert_eq!(is_whitespace_char(c), c.is_whitespace());
        }
        code += 1;
    }
}

#[test]
fn char_classes() {
    assert!(CharClass::AsciiWhitespace.test(' '));
    assert!(CharClass::AsciiWhitespace.test('\u{c}'));
    assert!(!CharClass::AsciiWhitespace.test('\u{b}'));
    assert!(!CharClass::AsciiWhitespace.test('\u{a0}'));
    assert!(CharClass::WhitespaceOrHyphen.test('-'));
    assert!(CharClass::WhitespaceOrHyphen.test('\u{a0}'));
    assert!(CharClass::Digit.test('0'));
    assert!(CharClass::Digit.test('9'));
    assert!(!CharClass::Digit.test('٣'));
    assert!(CharClass::Comma.test(','));
    assert!(CharClass::Colon.test(':'));
    assert!(!CharClass::Colon.test(';'));
}

#[test]
fn trim_removes_white_space_at_both_ends() {
    assert_eq!(string_of(trim(&chars_of("  \u{a0}Hörsaal 1 \t\n"))), "Hörsaal 1");
    assert_eq!(string_of(trim(&chars_of("   "))), "");
    assert_eq!(string_of(trim(&chars_of(""))), "");
    assert_eq!(string_of(trim(&chars_of("a b"))), "a b");
    assert_eq!(string_of(trim_start(&chars_of("  a  "))), "a  ");
    assert_eq!(string_of(trim_end(&chars_of("Titel:::"), CharClass::Colon)), "Titel");
    assert_eq!(string_of(trim_end(&chars_of("a:b"), CharClass::Colon)), "a:b");
}

#[test]
fn split_keeps_empty_pieces() {
    assert_eq!(strings(split(&chars_of("a,b,,c"), CharClass::Comma)), vec!["a", "b", "", "c"]);
    assert_eq!(strings(split(&chars_of(""), CharClass::Comma)), vec![""]);
    assert_eq!(strings(split(&chars_of(","), CharClass::Comma)), vec!["", ""]);
    assert_eq!(strings(split(&chars_of("abc"), CharClass::Comma)), vec!["abc"]);
}

#[test]
fn tokenize_drops_empty_pieces() {
    assert_eq!(
        strings(tokenize(&chars_of("  Januar \t 2024 "), CharClass::AsciiWhitespace)),
        vec!["Januar", "2024"]
    );
    assert_eq!(
        strings(tokenize(&chars_of("Mo 04.10.21 09:00-12:15"), CharClass::WhitespaceOrHyphen)),
        vec!["Mo", "04.10.21", "09:00", "12:15"]
    );
    assert_eq!(strings(tokenize(&chars_of("   "), CharClass::AsciiWhitespace)), Vec::<String>::new());
}

#[test]
fn join_puts_the_separator_between() {
    assert_eq!(join(&vec!["a".to_string(), "b".to_string(), "c".to_string()], ", "), "a, b, c");
    assert_eq!(join(&vec!["a".to_string()], ", "), "a");
    assert_eq!(join(&Vec::new(), ", "), "");
    assert_eq!(join(&vec!["".to_string(), "".to_string()], ","), ",");
}

#[test]
fn escape_commas_puts_a_backslash_before_each() {
    assert_eq!(escape_commas("a,b"), "a\\,b");
    assert_eq!(escape_commas(",,"), "\\,\\,");
    assert_eq!(escape_commas("a\\,b"), "a\\\\,b");
    assert_eq!(escape_commas("none"), "none");
    assert_eq!(escape_commas(""), "");
}
