use portkube::text::{
    concat_text, contains_text, find_text, is_blank, join_text, lines_of, push_decimal, same_text,
    split_text, text_of, to_chars, trim_text,
};

#[test]
fn lines_are_those_of_std() {
    for s in ["", "\n", "a", "a\n", "a\nb", "a\r\nb\r\n", "a\r", "a\r\r\n", "\n\na\n\n", "é\n日"] {
        let expected: Vec<&str> = s.lines().collect();
        assert_eq!(lines_of(s), expected, "{:?}", s);
    }
}

#[test]
fn trimming_is_that_of_std() {
    for s in ["", " ", "a", " a ", "\t\u{a0}a b\u{2003}\r\n", "\u{85}x\u{3000}", "\u{200b}x"] {
        assert_eq!(trim_text(s), s.trim(), "{:?}", s);
        assert_eq!(is_blank(s), s.trim().is_empty(), "{:?}", s);
    }
}

#[test]
fn splitting_and_joining_are_those_of_std() {
    for s in ["", ".", "a", "a.b", ".a..b.", "日.本"] {
        let expected: Vec<&str> = s.split('.').collect();
        assert_eq!(split_text(s, '.'), expected);
        assert_eq!(join_text(&split_text(s, '.'), "."), s);
    }
    assert_eq!(join_text(&vec![], ", "), "");
}

#[test]
fn searching_is_that_of_std() {
    for s in ["", "a", "aab", "CIDR x", "日本"] {
        for part in ["", "a", "ab", "b", "CIDR ", "本"] {
            assert_eq!(contains_text(s, part), s.contains(part), "{:?} {:?}", s, part);
        }
    }
    assert_eq!(find_text(&to_chars("日ab本ab"), &to_chars("ab")), Some(1));
}

#[test]
fn numbers_are_written_in_decimal() {
    for n in [0, 9, 10, 4711, -1, -100, i64::MAX, i64::MIN + 1] {
        let mut s = "n=".to_string();
        push_decimal(&mut s, n);
        assert_eq!(s, format!("n={}", n));
    }
}

#[test]
fn pieces_of_text() {
    assert_eq!(text_of(&to_chars("日本語"), 1, 2), "本");
    assert_eq!(concat_text("a", "b"), "ab");
    assert!(same_text("é", "é"));
    assert!(!same_text("e", "é"));
    assert!(!same_text("ab", "a"));
}
