use ndlm::parse::{
    code_of, final_word, parse_hex, parse_number, position, slice, spells, split_lines,
    split_pair, split_words, string_of,
};
use ndlm::text::chars_of;

fn chars(s: &str) -> Vec<char> {
    s.chars().collect()
}

fn strings(parts: &Vec<Vec<char>>) -> Vec<String> {
    parts.iter().map(|p| p.iter().collect()).collect()
}

#[test]
fn chars_of_gives_the_characters_in_order() {
    assert_eq!(chars_of(""), Vec::<char>::new());
    assert_eq!(chars_of("a\u{e9}\u{1f600} b"), vec!['a', '\u{e9}', '\u{1f600}', ' ', 'b']);
}

#[test]
fn string_of_is_the_inverse_of_chars_of() {
    for s in ["", "abc", "a=b\n", "\u{e9}\u{1f600}"] {
        assert_eq!(string_of(&chars_of(s)), s);
    }
}

#[test]
fn code_of_is_the_code_point() {
    assert_eq!(code_of('0'), 0x30);
    assert_eq!(code_of('\u{10ffff}'), 0x10ffff);
}

#[test]
fn position_finds_the_first_match_from_a_start() {
    let s = chars("a=b=c");
    assert_eq!(position(&s, '=', 0), 1);
    assert_eq!(position(&s, '=', 1), 1);
    assert_eq!(position(&s, '=', 2), 3);
    assert_eq!(position(&s, '=', 4), 5);
    assert_eq!(position(&s, '=', 5), 5);
    assert_eq!(position(&s, 'x', 0), 5);
    assert_eq!(position(&Vec::new(), 'x', 0), 0);
}

#[test]
fn slice_copies_a_range() {
    let s = chars("hello");
    assert_eq!(slice(&s, 1, 4), chars("ell"));
    assert_eq!(slice(&s, 0, 5), s);
    assert_eq!(slice(&s, 5, 5), Vec::<char>::new());
    assert_eq!(slice(&s, 2, 2), Vec::<char>::new());
}

#[test]
fn split_lines_splits_as_std_does() {
    for text in [
        "",
        "a",
        "a\n",
        "a\nb",
        "a\n\nb\n",
        "\n",
        "\n\n",
        "a\r\nb\r\n",
        "a\r",
        "a\r\n\r\nb",
        "\r\n",
        "a\rb\nc",
        "a\r\r\nb",
        "Name=x\nFont=y 12\n",
    ] {
        let expected: Vec<String> = text.lines().map(|l| l.to_string()).collect();
        assert_eq!(strings(&split_lines(&chars(text))), expected, "{:?}", text);
    }
}

#[test]
fn split_lines_gives_each_line_without_its_end() {
    assert_eq!(
        strings(&split_lines(&chars("one\r\ntwo\n\nfour"))),
        vec!["one", "two", "", "four"]
    );
}

#[test]
fn split_pair_takes_the_key_and_the_first_value() {
    let pair = |s: &str| {
        split_pair(&chars(s)).map(|(k, v)| (k.iter().collect::<String>(), v.iter().collect::<String>()))
    };
    assert_eq!(pair("a=b"), Some(("a".to_string(), "b".to_string())));
    assert_eq!(pair("a=b=c"), Some(("a".to_string(), "b".to_string())));
    assert_eq!(pair("a="), Some(("a".to_string(), "".to_string())));
    assert_eq!(pair("=b"), Some(("".to_string(), "b".to_string())));
    assert_eq!(pair("="), Some(("".to_string(), "".to_string())));
    assert_eq!(pair("a==c"), Some(("a".to_string(), "".to_string())));
    assert_eq!(pair(" a = b "), Some((" a ".to_string(), " b ".to_string())));
    assert_eq!(pair("ab"), None);
    assert_eq!(pair(""), None);
}

#[test]
fn split_words_splits_at_each_space() {
    for text in ["", "a", "a b", "a  b", " a", "a ", " ", "sway --debug", "a\tb c"] {
        let expected: Vec<String> = text.split(" ").map(|w| w.to_string()).collect();
        assert_eq!(strings(&split_words(&chars(text))), expected, "{:?}", text);
    }
    assert_eq!(strings(&split_words(&chars("a  b "))), vec!["a", "", "b", ""]);
}

#[test]
fn final_word_follows_the_last_space() {
    for text in ["", "a", "a b", "a b ", "DejaVu Sans 32", " x", "  "] {
        let expected = text.split(" ").last().unwrap().to_string();
        let word: String = final_word(&chars(text)).iter().collect();
        assert_eq!(word, expected, "{:?}", text);
    }
    assert_eq!(final_word(&chars("DejaVu Sans 32")), chars("32"));
}

#[test]
fn parse_number_reads_decimal_digits() {
    assert_eq!(parse_number(&chars("0")), Some(0));
    assert_eq!(parse_number(&chars("7")), Some(7));
    assert_eq!(parse_number(&chars("32")), Some(32));
    assert_eq!(parse_number(&chars("0032")), Some(32));
    assert_eq!(parse_number(&chars("4294967295")), Some(u32::MAX));
    assert_eq!(parse_number(&chars("00000000004294967295")), Some(u32::MAX));
}

#[test]
fn parse_number_refuses_everything_else() {
    for bad in ["", " ", "4294967296", "42949672950", "-1", "+1", "1 ", " 1", "1.0", "1e3", "0x10", "\u{661}", "12a", "a12"] {
        assert_eq!(parse_number(&chars(bad)), None, "{:?}", bad);
    }
}

#[test]
fn parse_hex_reads_digits_of_either_case() {
    for (i, c) in "0123456789abcdef".chars().enumerate() {
        assert_eq!(parse_hex(c), Some(i as u8));
    }
    for (i, c) in "ABCDEF".chars().enumerate() {
        assert_eq!(parse_hex(c), Some(10 + i as u8));
    }
    for c in ['g', 'G', '/', ':', '@', '`', ' ', '\u{ff11}'] {
        assert_eq!(parse_hex(c), None);
    }
}

#[test]
fn spells_compares_character_by_character() {
    assert!(spells(&chars("Font"), "Font"));
    assert!(spells(&Vec::new(), ""));
    assert!(!spells(&chars("Font"), "font"));
    assert!(!spells(&chars("Font"), "Fonts"));
    assert!(!spells(&chars("Fonts"), "Font"));
    assert!(!spells(&chars(""), "x"));
}
