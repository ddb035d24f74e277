use md_image_cleaner::text::{append_decimal, chars_of, occurs, replace};

#[test]
fn chars_of_lists_the_characters() {
    assert_eq!(chars_of("a/é"), vec!['a', '/', 'é']);
    assert_eq!(chars_of(""), Vec::<char>::new());
}

#[test]
fn occurs_tests_one_place() {
    let text = chars_of("abcabc");
    let pattern = chars_of("bc");
    assert!(occurs(&text, 1, &pattern));
    assert!(occurs(&text, 4, &pattern));
    assert!(!occurs(&text, 0, &pattern));
    assert!(!occurs(&text, 5, &pattern));
    assert!(!occurs(&text, 7, &pattern));
    assert!(occurs(&text, 6, &chars_of("")));
}

#[test]
fn replace_replaces_every_occurrence() {
    assert_eq!(replace("![a](a.png) and ![b](a.png)", "a.png", "1.png"), "![a](1.png) and ![b](1.png)");
    assert_eq!(replace("aaaa", "aa", "b"), "bb");
    assert_eq!(replace("aaa", "aa", "b"), "ba");
    assert_eq!(replace("abc", "x", "y"), "abc");
    assert_eq!(replace("", "x", "y"), "");
    assert_eq!(replace("abc", "abc", ""), "");
    assert_eq!(replace("héllo wörld", "ö", "oe"), "héllo woerld");
}

#[test]
fn replace_agrees_with_the_standard_library() {
    let cases = [
        ("abcabc", "bc", "-"),
        ("abc", "", "-"),
        ("", "", "-"),
        ("aXbXc", "X", "XX"),
        ("./a.png ./a.png", "./a.png", "./1.png"),
    ];
    for (text, from, to) in cases {
        assert_eq!(replace(text, from, to), text.replace(from, to));
    }
}

#[test]
fn append_decimal_writes_the_number() {
    let cases: [(usize, &str); 7] = [
        (0, "0"),
        (1, "1"),
        (9, "9"),
        (10, "10"),
        (42, "42"),
        (1000, "1000"),
        (1234567890, "1234567890"),
    ];
    for (n, expected) in cases {
        let mut out = String::from("#");
        append_decimal(&mut out, n);
        assert_eq!(out, format!("#{}", expected));
    }
    let mut out = String::new();
    append_decimal(&mut out, usize::MAX);
    assert_eq!(out, format!("{}", usize::MAX));
}
