use aerospace_helper::number::{read_i32, read_u32, read_usize, write_decimal};
use aerospace_helper::text::{
    add_all, chars_of, chain, contains, is_white_space, join, lines, list_of, listed, same, split,
    starts_with, trim,
};

const SAMPLES: &[&str] = &[
    "",
    " ",
    "a",
    "|",
    "||",
    "a|b",
    "a|b|",
    "|a|b",
    " a | b ",
    "\n",
    "\r\n",
    "\n\n",
    "a\nb",
    "a\r\nb\r\n",
    "a\rb\n",
    "a\r",
    "a\n\r",
    "\r",
    "\u{a0}x\u{3000}",
    "h_accordion",
    "accordio",
    "accordion",
    "aaccordion",
    "\u{fc}ber|\u{1f600}",
    "\t tab\u{b}\u{c}",
    "__focus__",
    "_",
];

#[test]
fn white_space_is_as_in_unicode() {
    for n in 0..=0x10ffff_u32 {
        if let Some(c) = char::from_u32(n) {
            assert_eq!(is_white_space(c), c.is_whitespace(), "U+{:04X}", n);
        }
    }
}

#[test]
fn characters_are_listed() {
    assert_eq!(chars_of("a\u{1f600}b"), vec!['a', '\u{1f600}', 'b']);
    assert_eq!(chars_of(""), Vec::<char>::new());
}

#[test]
fn trimming_takes_white_space_from_both_ends() {
    for s in SAMPLES {
        assert_eq!(trim(s), s.trim(), "{:?}", s);
    }
    assert_eq!(trim(" \t a b\u{3000}\n"), "a b");
    assert_eq!(trim(trim("  x ")), trim("  x "));
}

#[test]
fn cutting_gives_one_piece_more_than_separators() {
    for s in SAMPLES {
        assert_eq!(split(s, '|'), s.split('|').collect::<Vec<_>>(), "{:?}", s);
    }
    assert_eq!(split("a||b", '|'), vec!["a", "", "b"]);
    assert_eq!(split("", '|'), vec![""]);
}

#[test]
fn pieces_joined_again_are_the_text() {
    for s in SAMPLES {
        let list: Vec<String> = split(s, '|').iter().map(|p| p.to_string()).collect();
        assert_eq!(join(&list, "|"), *s);
    }
}

#[test]
fn joined_pieces_are_cut_apart_again() {
    let list = list_of(&["1", "Code", "", "v_accordion"]);
    let whole = join(&list, "|");
    assert_eq!(whole, "1|Code||v_accordion");
    assert_eq!(split(&whole, '|'), vec!["1", "Code", "", "v_accordion"]);
}

#[test]
fn lines_end_in_line_feeds() {
    for s in SAMPLES {
        assert_eq!(lines(s), s.lines().collect::<Vec<_>>(), "{:?}", s);
    }
    assert_eq!(lines("a\r\n\nb\r"), vec!["a", "", "b\r"]);
    assert_eq!(lines(""), Vec::<&str>::new());
}

#[test]
fn searching_finds_parts_and_starts() {
    for s in SAMPLES {
        for part in ["accordion", "", "|", "a", "\u{1f600}", "__"] {
            assert_eq!(contains(s, part), s.contains(part), "{:?} {:?}", s, part);
            assert_eq!(starts_with(s, part), s.starts_with(part), "{:?} {:?}", s, part);
        }
    }
}

#[test]
fn texts_are_compared_and_put_together() {
    assert!(same("a", "a"));
    assert!(!same("a", "b"));
    assert!(!same("a", "aa"));
    assert_eq!(chain("ws", "1"), "ws1");
    let list = list_of(&["x", "y"]);
    assert!(listed(&list, "y"));
    assert!(!listed(&list, "z"));
    assert!(!listed(&Vec::new(), ""));
}

#[test]
fn lists_are_joined_and_extended() {
    assert_eq!(join(&Vec::new(), " "), "");
    assert_eq!(join(&list_of(&[":code:"]), " "), ":code:");
    assert_eq!(join(&list_of(&[":code:", "", ":chrome:"]), " "), ":code:  :chrome:");
    let mut list = list_of(&["a"]);
    add_all(&mut list, &["b", "c"]);
    assert_eq!(list, vec!["a", "b", "c"]);
}

const NUMBERS: &[&str] = &[
    "", "0", "-0", "+0", "+", "-", "7", "-7", "+7", "007", "42 ", " 42", "4 2", "999", "-1",
    "2147483647", "2147483648", "-2147483648", "-2147483649", "4294967295", "4294967296",
    "18446744073709551615", "18446744073709551616", "99999999999999999999999999", "0x10", "1e3",
    "--1", "+-1", "\u{663}", "0000000000000000000000000000012",
];

#[test]
fn numbers_are_read_as_their_types_are() {
    for s in NUMBERS {
        assert_eq!(read_i32(s), s.parse::<i32>().ok(), "{:?}", s);
        assert_eq!(read_u32(s), s.parse::<u32>().ok(), "{:?}", s);
        assert_eq!(read_usize(s), s.parse::<usize>().ok(), "{:?}", s);
    }
    assert_eq!(read_i32("-1"), Some(-1));
    assert_eq!(read_u32("-0"), None);
    assert_eq!(read_i32("-2147483648"), Some(i32::MIN));
}

#[test]
fn numbers_are_written_in_decimal() {
    for n in [0, 9, 10, 11, 99, 100, 1234567890, u64::MAX] {
        assert_eq!(write_decimal(n), format!("{}", n));
    }
}

#[test]
fn written_numbers_are_read_back() {
    for n in [0, 1, 9, 10, 99, 4711, u32::MAX] {
        assert_eq!(read_u32(&write_decimal(n as u64)), Some(n));
    }
    assert_ne!(write_decimal(12), write_decimal(21));
}
