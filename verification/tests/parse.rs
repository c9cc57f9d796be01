use edge_puzzle::parse::{chars_of, is_space, parse_line, parse_token};

fn token(text: &str) -> Option<u8> {
    let chars: Vec<char> = text.chars().collect();
    parse_token(&chars, 0, chars.len())
}

#[test]
fn test_chars_of() {
    assert_eq!(chars_of(""), Vec::<char>::new());
    assert_eq!(chars_of("4 2"), vec!['4', ' ', '2']);
    assert_eq!(chars_of("é\u{3000}1"), vec!['é', '\u{3000}', '1']);
}

#[test]
fn test_is_space_matches_std() {
    let mut n: u32 = 0;
    while n <= 0x3100 {
        if let Some(c) = char::from_u32(n) {
            assert_eq!(is_space(c), c.is_whitespace(), "code point {}", n);
        }
        n += 1;
    }
    assert!(is_space(' '));
    assert!(is_space('\t'));
    assert!(is_space('\u{00A0}'));
    assert!(!is_space('0'));
    assert!(!is_space('\u{200B}'));
}

#[test]
fn test_parse_token_values() {
    assert_eq!(token("0"), Some(0));
    assert_eq!(token("7"), Some(7));
    assert_eq!(token("42"), Some(42));
    assert_eq!(token("255"), Some(255));
    assert_eq!(token("+255"), Some(255));
    assert_eq!(token("007"), Some(7));
    assert_eq!(token("0000000000000000000000000000012"), Some(12));
}

#[test]
fn test_parse_token_rejects() {
    assert_eq!(token(""), None);
    assert_eq!(token("+"), None);
    assert_eq!(token("-1"), None);
    assert_eq!(token("++1"), None);
    assert_eq!(token("1+"), None);
    assert_eq!(token("256"), None);
    assert_eq!(token("1000"), None);
    assert_eq!(token("99999999999999999999999999"), None);
    assert_eq!(token("12a"), None);
    assert_eq!(token("a12"), None);
    assert_eq!(token("1 2"), None);
    assert_eq!(token("٣"), None);
}

#[test]
fn test_parse_token_matches_std() {
    let samples = [
        "0", "1", "9", "10", "99", "100", "199", "200", "249", "250", "255", "256", "260", "300",
        "999", "+0", "+12", "+255", "+256", "-0", "", "+", "0x1", "1_0", " 1", "1 ", "00", "0255",
        "0256",
    ];
    for s in samples.iter() {
        assert_eq!(token(s), s.parse::<u8>().ok(), "token {:?}", s);
    }
}

#[test]
fn test_parse_token_inside_a_line() {
    let chars: Vec<char> = "12 345 6".chars().collect();
    assert_eq!(parse_token(&chars, 0, 2), Some(12));
    assert_eq!(parse_token(&chars, 1, 2), Some(2));
    assert_eq!(parse_token(&chars, 3, 6), None);
    assert_eq!(parse_token(&chars, 3, 5), Some(34));
    assert_eq!(parse_token(&chars, 7, 8), Some(6));
    assert_eq!(parse_token(&chars, 4, 4), None);
}

#[test]
fn test_parse_line() {
    assert_eq!(parse_line("3 5 5 4"), Some(vec![3, 5, 5, 4]));
    assert_eq!(parse_line("  3\t5   5 4  "), Some(vec![3, 5, 5, 4]));
    assert_eq!(parse_line(""), Some(vec![]));
    assert_eq!(parse_line("   "), Some(vec![]));
    assert_eq!(parse_line("7"), Some(vec![7]));
    assert_eq!(parse_line("0 0 0 0 0"), Some(vec![0, 0, 0, 0, 0]));
    assert_eq!(parse_line("1\u{2003}2\u{00A0}3"), Some(vec![1, 2, 3]));
    assert_eq!(parse_line("+1 +2"), Some(vec![1, 2]));
}

#[test]
fn test_parse_line_rejects() {
    assert_eq!(parse_line("3 5 x 4"), None);
    assert_eq!(parse_line("3 5 256 4"), None);
    assert_eq!(parse_line("3,5,5,4"), None);
    assert_eq!(parse_line("-3 5 5 4"), None);
    assert_eq!(parse_line("3 5 5 4 ."), None);
    assert_eq!(parse_line("1\u{200B}2"), None);
}

#[test]
fn test_parse_line_matches_std() {
    let samples = [
        "1 2 3 4",
        " 1  2\t3\n4 ",
        "255 0 +7 08",
        "1 2 3 four",
        "300",
        "",
        "\u{1680}9\u{2028}8",
    ];
    for s in samples.iter() {
        let mut expected: Option<Vec<u8>> = Some(Vec::new());
        for word in s.split_whitespace() {
            match (word.parse::<u8>(), expected.as_mut()) {
                (Ok(v), Some(list)) => list.push(v),
                _ => expected = None,
            }
        }
        assert_eq!(parse_line(s), expected, "line {:?}", s);
    }
}
