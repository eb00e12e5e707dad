use chat_server::text::{chars_of, decimal, find_char, rfind_char, same_text, split_trimmed, trim};

#[test]
fn trim_matches_std() {
    for s in ["", "   ", " a ", "\u{a0}\u{1680}x y\u{3000}", "\u{200b}z\u{200b}", "\t\n\r\x0b\x0cq\u{85}"] {
        assert_eq!(trim(s), s.trim());
    }
}

#[test]
fn trim_twice_is_trim_once() {
    for s in [" a b ", "\u{2000}", "x"] {
        assert_eq!(trim(&trim(s)), trim(s));
    }
}

#[test]
fn split_trimmed_matches_std() {
    for s in ["", ",", "a, b ,c", " , x,,"] {
        let expected: Vec<String> = s.split(',').map(|p| p.trim().to_string()).collect();
        assert_eq!(split_trimmed(s, ','), expected);
    }
}

#[test]
fn decimal_matches_to_string() {
    for n in [0u64, 7, 10, 99, 100, 305, 65536, u64::MAX] {
        assert_eq!(decimal(n), n.to_string());
    }
}

#[test]
fn char_search() {
    let chars = chars_of("a:b:c");
    assert_eq!(chars, vec!['a', ':', 'b', ':', 'c']);
    assert_eq!(find_char(&chars, ':'), Some(1));
    assert_eq!(rfind_char(&chars, ':'), Some(3));
    assert_eq!(find_char(&chars, '.'), None);
    assert!(same_text("héllo", "héllo"));
    assert!(!same_text("hello", "hell"));
}
