use onedm::order::place_for;
use onedm::text::{
    begins_with, bytes_in, chars_of, cut_after_last, cut_until, decimal_of, finishes_with,
    has_text, padded_of, same, string_of, to_u64, to_usize, tokens_of, trimmed, trimmed_of,
};

fn chars(s: &str) -> Vec<char> {
    chars_of(s)
}

#[test]
fn characters_and_strings_match() {
    assert_eq!(string_of(&chars("héllo")), "héllo");
    assert!(same("a", "a"));
    assert!(!same("a", "b"));
    assert!(!same("a", "ab"));
    assert_eq!(bytes_in("é"), 2);
    assert_eq!(bytes_in(""), 0);
}

#[test]
fn searching_a_text() {
    let s = chars("one.two.three");
    assert_eq!(string_of(&cut_until(&s, &['.'])), "one");
    assert_eq!(string_of(&cut_after_last(&s, &['.'])), "three");
    assert_eq!(string_of(&cut_until(&s, &['/'])), "one.two.three");
    assert_eq!(string_of(&cut_after_last(&s, &['/'])), "one.two.three");
    assert!(has_text(&s, ".two."));
    assert!(has_text(&s, ""));
    assert!(!has_text(&s, "four"));
    assert!(begins_with(&s, "one"));
    assert!(!begins_with(&s, "two"));
    assert!(finishes_with(&s, "three"));
    assert!(!finishes_with(&s, "one.two.three.four"));
}

#[test]
fn trimming_and_tokens() {
    assert_eq!(trimmed(" \t a b\u{3000}\n"), "a b");
    assert_eq!(trimmed("\u{a0}"), "");
    assert_eq!(string_of(&trimmed_of(&chars("..a.b.."), &['.'])), "a.b");
    assert_eq!(tokens_of(&chars("  a  bc\nd ")), vec!["a", "bc", "d"]);
    assert!(tokens_of(&chars(" \t ")).is_empty());
}

#[test]
fn numbers_are_read_as_rust_reads_them() {
    for s in ["0", "7", "+7", "007", "18446744073709551615", "18446744073709551616", "", "+",
        "-1", "1a", " 1", "++1", "99999999999999999999999"]
    {
        assert_eq!(to_u64(&chars(s)), s.parse::<u64>().ok(), "{}", s);
        assert_eq!(to_usize(&chars(s)), s.parse::<usize>().ok(), "{}", s);
    }
}

#[test]
fn numbers_are_written_as_rust_writes_them() {
    for n in [0u64, 9, 10, 99, 1000, 12345, u64::MAX] {
        assert_eq!(decimal_of(n), n.to_string());
        assert_eq!(padded_of(n, 5), format!("{:05}", n));
        assert_eq!(padded_of(n, 0), n.to_string());
        assert_eq!(to_u64(&chars(&decimal_of(n))), Some(n));
        assert_eq!(to_u64(&chars(&padded_of(n, 30))), Some(n));
    }
}

#[test]
fn places_keep_equal_keys_in_order() {
    assert_eq!(place_for(&vec![9, 5, 5, 1], 5), 3);
    assert_eq!(place_for(&vec![9, 5, 5, 1], 10), 0);
    assert_eq!(place_for(&vec![9, 5, 5, 1], 0), 4);
    assert_eq!(place_for(&vec![], 3), 0);
}
