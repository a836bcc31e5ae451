use load_balancer::text::{chars_of, position, split_at_char, split_whitespace, trimmed, whitespace};

fn cs(s: &str) -> Vec<char> {
    s.chars().collect()
}

fn strings(v: Vec<&[char]>) -> Vec<String> {
    v.into_iter().map(|f| f.iter().collect()).collect()
}

#[test]
fn whitespace_is_the_unicode_property() {
    let mut c: u32 = 0;
    while c <= 0x10ffff {
        if let Some(ch) = char::from_u32(c) {
            assert_eq!(whitespace(ch), ch.is_whitespace(), "U+{:04X}", c);
        }
        c += 1;
    }
}

#[test]
fn whitespace_on_chosen_characters() {
    assert!(whitespace(' '));
    assert!(whitespace('\t'));
    assert!(whitespace('\n'));
    assert!(whitespace('\u{b}'));
    assert!(whitespace('\u{a0}'));
    assert!(whitespace('\u{3000}'));
    assert!(!whitespace('\u{200b}'));
    assert!(!whitespace('\u{180e}'));
    assert!(!whitespace('a'));
    assert!(!whitespace('\u{fffd}'));
}

#[test]
fn chars_of_gives_the_characters() {
    assert_eq!(chars_of("a b"), vec!['a', ' ', 'b']);
    assert_eq!(chars_of(""), Vec::<char>::new());
    assert_eq!(chars_of("é\u{a0}漢"), vec!['é', '\u{a0}', '漢']);
}

#[test]
fn trimmed_drops_both_ends() {
    for s in ["", " ", "a", " a", "a ", "  a b \t\r\n", "\u{a0}OK\u{2003}", "\n\n", "a  b"] {
        let v = cs(s);
        let got: String = trimmed(&v).iter().collect();
        assert_eq!(got, s.trim(), "{:?}", s);
    }
}

#[test]
fn split_whitespace_gives_tokens() {
    for s in ["", "   ", "a", " a ", "a b", "a  b\tc\n", "\u{a0}x\u{3000}y", "127.0.0.1:1 127.0.0.1:2 extra"] {
        let v = cs(s);
        let want: Vec<String> = s.split_whitespace().map(|t| t.to_string()).collect();
        assert_eq!(strings(split_whitespace(&v)), want, "{:?}", s);
    }
}

#[test]
fn split_at_char_keeps_empty_fields() {
    for s in ["", ".", "a", "a.b", "a..b", ".a.", "1.2.3.4", "..."] {
        let v = cs(s);
        let want: Vec<String> = s.split('.').map(|t| t.to_string()).collect();
        assert_eq!(strings(split_at_char(&v, '.')), want, "{:?}", s);
    }
}

#[test]
fn position_finds_the_first() {
    assert_eq!(position(&cs("abcabc"), 'c'), 2);
    assert_eq!(position(&cs("abcabc"), 'a'), 0);
    assert_eq!(position(&cs("abcabc"), 'x'), 6);
    assert_eq!(position(&cs(""), 'x'), 0);
}
