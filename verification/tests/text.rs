use charge_sim::text::{chars_of, space, split_on, string_of, trimmed, without_parens};

fn chars(s: &str) -> Vec<char> {
    s.chars().collect()
}

fn pieces(s: &str, sep: char) -> Vec<String> {
    split_on(&chars(s), sep).iter().map(|p| p.iter().collect()).collect()
}

const SAMPLES: [&str; 16] = [
    "",
    " ",
    "a",
    "a b",
    " a b ",
    "a  b",
    "  ",
    "one two three",
    "(1,2,3) (4,5,6)",
    "\u{3000}x\u{2003}y\u{85}",
    "\t\n\r tabs\u{b}\u{c}",
    "é è",
    ",,,",
    "(((",
    ")a(b)c(",
    "\u{200b}zero width\u{200b}",
];

#[test]
fn chars_and_back() {
    for s in SAMPLES {
        assert_eq!(chars_of(s), chars(s));
        assert_eq!(string_of(&chars(s)), s);
    }
}

#[test]
fn split_agrees_with_str_split() {
    for s in SAMPLES {
        for sep in [' ', ',', '\n', 'a', '('] {
            let expected: Vec<String> = s.split(sep).map(|p| p.to_string()).collect();
            assert_eq!(pieces(s, sep), expected, "{:?} at {:?}", s, sep);
        }
    }
}

#[test]
fn split_examples() {
    assert_eq!(pieces("", ' '), vec![""]);
    assert_eq!(pieces("a b", ' '), vec!["a", "b"]);
    assert_eq!(pieces("a  b", ' '), vec!["a", "", "b"]);
    assert_eq!(pieces(" a ", ' '), vec!["", "a", ""]);
    assert_eq!(pieces("1,2,3", ','), vec!["1", "2", "3"]);
}

#[test]
fn joining_the_pieces_gives_the_text_back() {
    for s in SAMPLES {
        for sep in [' ', ',', '('] {
            let parts = pieces(s, sep);
            assert!(parts.iter().all(|p| !p.contains(sep)));
            assert_eq!(parts.join(&sep.to_string()), s);
        }
    }
}

#[test]
fn brackets_are_removed() {
    for s in SAMPLES {
        let mut expected = s.to_string();
        expected.retain(|c| c != '(' && c != ')');
        assert_eq!(string_of(&without_parens(&chars(s))), expected);
    }
    assert_eq!(string_of(&without_parens(&chars("(1,2,3)"))), "1,2,3");
    assert_eq!(string_of(&without_parens(&chars(")a(b)c("))), "abc");
}

#[test]
fn trim_agrees_with_str_trim() {
    for s in SAMPLES {
        assert_eq!(string_of(&trimmed(&chars(s))), s.trim(), "{:?}", s);
    }
    assert_eq!(string_of(&trimmed(&chars("  a b \t"))), "a b");
    assert_eq!(string_of(&trimmed(&chars(" \u{a0} "))), "");
}

#[test]
fn white_space_is_what_char_says() {
    let mut count: u32 = 0;
    for code in 0..=0x10ffffu32 {
        if let Some(c) = char::from_u32(code) {
            assert_eq!(space(c), c.is_whitespace(), "{:x}", code);
            if space(c) {
                count += 1;
            }
        }
    }
    assert_eq!(count, 25);
}
