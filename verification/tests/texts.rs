use jarlid::digits::{decimal, fnv, hex16};
use jarlid::seconds::Seconds;
use jarlid::text::{
    chars_of, contains, find_text, is_white_space, lines, lower, replace, same_text,
    split, string_of, text_of, trim,
};

#[test]
fn white_space_is_that_of_the_standard_library() {
    for n in 0..=0x10ffff_u32 {
        if let Some(c) = char::from_u32(n) {
            assert_eq!(is_white_space(c), c.is_whitespace(), "{n:x}");
        }
    }
}

#[test]
fn trimming_matches_the_standard_library() {
    for s in ["", " ", "\t a b \r\n", "\u{3000}x\u{a0}", "\u{200b}x", "x"] {
        assert_eq!(trim(s), s.trim());
    }
}

#[test]
fn lines_match_the_standard_library() {
    for s in ["", "\n", "a", "a\n", "a\r\n", "a\r", "a\n\nb", "\r\n\r\n", "a\rb\r\nc", "\r\r\n"] {
        let expected: Vec<String> = s.lines().map(|l| l.to_string()).collect();
        assert_eq!(lines(s), expected, "{s:?}");
    }
}

#[test]
fn splitting_matches_the_standard_library() {
    for (s, p) in [("a:b:c", ":"), ("", ":"), (":", ":"), ("aaa", "aa"), ("x<s>y<s>", "<s>")] {
        let expected: Vec<String> = s.split(p).map(|l| l.to_string()).collect();
        assert_eq!(split(&chars_of(s), &chars_of(p)), expected);
    }
}

#[test]
fn replacing_matches_the_standard_library() {
    for (s, p, t) in [("aaa", "aa", "b"), ("x&lt;y", "&lt;", "<"), ("", "a", "b"), ("abab", "ab", "")] {
        let r = replace(&chars_of(s), &chars_of(p), &chars_of(t));
        assert_eq!(string_of(&r), s.replace(p, t));
    }
}

#[test]
fn searching() {
    let s = chars_of("aXbXXc");
    assert_eq!(find_text(&s, &chars_of("XX"), 0), Some(3));
    assert_eq!(find_text(&s, &chars_of("X"), 2), Some(3));
    assert_eq!(find_text(&s, &chars_of("X"), 5), None);
    assert_eq!(find_text(&s, &chars_of(""), 6), Some(6));
    assert_eq!(find_text(&s, &chars_of(""), 7), None);
    assert!(contains(&s, &chars_of("bX")));
    assert!(!contains(&s, &chars_of("Xc ")));
    assert_eq!(text_of(&s, 1, 3), "Xb");
    assert!(same_text("é", "é"));
    assert!(!same_text("a", "A"));
}

#[test]
fn lower_case() {
    assert_eq!(lower("WiiM Pro @[`{Z"), "wiim pro @[`{z");
    assert_eq!(lower("ÀÉÎ"), "àéî");
    assert_eq!(lower("ΑΣ"), "ας");
    assert_eq!(lower("İ"), "i\u{307}");
}

#[test]
fn decimals() {
    for n in [0, 7, 10, 155, -1, -90, i64::MAX, i64::MIN] {
        assert_eq!(decimal(n), n.to_string());
    }
}

#[test]
fn hexadecimals() {
    assert_eq!(hex16(0), "0000000000000000");
    assert_eq!(hex16(0xcbf29ce484222325), "cbf29ce484222325");
    assert_eq!(hex16(u64::MAX), "ffffffffffffffff");
    assert_eq!(hex16(0x0123_4567_89ab_cdef), "0123456789abcdef");
}

#[test]
fn hexadecimals_differ() {
    let all = [0, 1, 0x10, 0x1_0000_0000, 1 << 63, u64::MAX];
    for a in all {
        for b in all {
            assert_eq!(hex16(a) == hex16(b), a == b);
        }
    }
}

#[test]
fn hashes() {
    assert_eq!(fnv(b""), 0xcbf29ce484222325);
    assert_eq!(fnv(b"a"), 0xaf63dc4c8601ec8c);
    assert_eq!(fnv(b"foobar"), 0x85944171f73967e8);
}

#[test]
fn seconds_compare_as_numbers() {
    let all = [
        0.0, -0.0, 1.0, -1.0, 155.0, f64::MIN, f64::MAX, f64::INFINITY, f64::NEG_INFINITY, f64::NAN,
        -f64::NAN, f64::MIN_POSITIVE, 5e-324,
    ];
    for a in all {
        let x = Seconds { bits: a.to_bits() };
        assert_eq!(x.is_positive(), a > 0.0);
        for b in all {
            assert_eq!(x.same(Seconds { bits: b.to_bits() }), a == b, "{a} {b}");
        }
    }
}
