use squawkline::sorting::{less, sort_dedup};
use squawkline::text::{blanked, head_of, joined, split_once, tail_of, trimmed, trimmed_end, without_ends, without_marks, words};

fn owned(list: &[&str]) -> Vec<String> {
    list.iter().map(|s| (*s).to_owned()).collect()
}

#[test]
fn text_is_split_at_the_first_occurrence() {
    assert_eq!(split_once("a=b=c", '='), Some(("a".to_owned(), "b=c".to_owned())));
    assert_eq!(split_once("abc", '='), None);
    assert_eq!((head_of("abc", '='), tail_of("abc", '=')), ("abc".to_owned(), String::new()));
}

#[test]
fn text_is_trimmed_and_split_into_words_as_std_does_it() {
    for s in ["", "  ", " a b ", "a\u{a0}b\u{3000}", "\u{85}x\u{2028}", "\tone  two\r\n", "\u{200b}z\u{1680}", "\u{180e}\u{feff}q"] {
        assert_eq!(trimmed(s), s.trim());
        assert_eq!(trimmed_end(s), s.trim_end());
        assert_eq!(words(s), s.split_whitespace().collect::<Vec<_>>());
    }
    for n in 0..0x11_0000u32 {
        if let Some(c) = char::from_u32(n) {
            assert_eq!(squawkline::text::white(c), c.is_whitespace());
        }
    }
}

#[test]
fn marks_and_ends_are_taken_off() {
    assert_eq!(without_marks("@+bob@", "@+%~&"), "bob@");
    assert_eq!(without_marks("@@", "@"), "");
    assert_eq!(without_ends("xxaxbxx", 'x'), "axb");
    assert_eq!(without_ends("xxx", 'x'), "");
    assert_eq!(blanked("a\u{1}b\u{1}", '\u{1}'), "a b ");
    assert_eq!(joined(&owned(&["a", "", "b"]), ", "), "a, , b");
    assert_eq!(joined(&Vec::new(), ", "), "");
}

#[test]
fn lists_are_sorted_as_std_sorts_them() {
    let list = ["zoe", "Zed", "adam", "\u{e9}va", "zo", "adam", "", "z\u{10000}", "z\u{ffff}"];
    let mut expected = list.to_vec();
    expected.sort_unstable();
    expected.dedup();
    assert_eq!(sort_dedup(&owned(&list)), expected);
    for a in list {
        for b in list {
            assert_eq!(less(a, b), a < b);
        }
    }
}
