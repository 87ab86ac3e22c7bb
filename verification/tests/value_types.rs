use sled_explorer::sled_manager::SledManager;
use sled_explorer::value_type::{detect, ValueType};

// The rule that the hint follows, written with the standard library's own
// parser for floats.
fn by_the_rule(value: &[u8]) -> ValueType {
    match std::str::from_utf8(value) {
        Ok(s) => {
            if s.trim_start().starts_with('{') || s.trim_start().starts_with('[') {
                ValueType::Json
            } else if s == "true" || s == "false" {
                ValueType::Boolean
            } else if s.parse::<f64>().is_ok() {
                ValueType::Number
            } else {
                ValueType::String
            }
        }
        Err(_) => ValueType::Binary,
    }
}

#[test]
fn classify_examples() {
    assert_eq!(detect(b"true"), ValueType::Boolean);
    assert_eq!(detect(b"42.5"), ValueType::Number);
    assert_eq!(detect(b"{\"a\":1}"), ValueType::Json);
    assert_eq!(detect(b"\xFF\xFE"), ValueType::Binary);
    assert_eq!(detect(b"hello"), ValueType::String);
}

#[test]
fn classify_through_the_manager() {
    assert_eq!(SledManager::detect_value_type(b"false"), ValueType::Boolean);
    assert_eq!(SledManager::detect_value_type(b"[1, 2"), ValueType::Json);
    assert_eq!(SledManager::detect_value_type(b""), ValueType::String);
}

#[test]
fn json_opening_wins_over_the_rest() {
    assert_eq!(detect(b"  {not json at all"), ValueType::Json);
    assert_eq!(detect(b"\t\n[true"), ValueType::Json);
    assert_eq!(detect("\u{3000}\u{2003}{".as_bytes()), ValueType::Json);
    assert_eq!(detect("\u{85}\u{a0}[".as_bytes()), ValueType::Json);
    assert_eq!(detect(b"x{"), ValueType::String);
    assert_eq!(detect("\u{200b}{".as_bytes()), ValueType::String);
}

#[test]
fn booleans_are_exact() {
    assert_eq!(detect(b"true"), ValueType::Boolean);
    assert_eq!(detect(b"false"), ValueType::Boolean);
    assert_eq!(detect(b"True"), ValueType::String);
    assert_eq!(detect(b" true"), ValueType::String);
    assert_eq!(detect(b"true "), ValueType::String);
    assert_eq!(detect(b"truee"), ValueType::String);
}

#[test]
fn numbers_follow_the_float_grammar() {
    for text in [
        "0", "42", "-7", "+7", "42.5", "5.", ".5", "-.5", "1e5", "1E5", "1e+5", "1e-5", "1.5e10",
        ".5e3", "5.e3", "inf", "INF", "Infinity", "-infinity", "+inf", "nan", "NaN", "-nan",
        "00012", "1e400", "123456789012345678901234567890",
    ] {
        assert_eq!(detect(text.as_bytes()), ValueType::Number, "{:?}", text);
    }
    for text in [
        "", "+", "-", ".", "e5", "1e", "1e+", "1.2.3", "1 ", " 1", "1_000", "0x10", "infinit",
        "infinityy", "na", "--1", "+-1", "1e5.5", "1,5", "٣", ".e5", "-.", "1f", "i", "in",
    ] {
        assert_eq!(detect(text.as_bytes()), ValueType::String, "{:?}", text);
    }
}

#[test]
fn hint_agrees_with_the_rule() {
    let samples: Vec<Vec<u8>> = vec![
        b"".to_vec(),
        b" ".to_vec(),
        b"{".to_vec(),
        b"[".to_vec(),
        b"   [".to_vec(),
        b"\x0b{".to_vec(),
        b"\x0c[".to_vec(),
        b"\x1c{".to_vec(),
        b"true".to_vec(),
        b"false".to_vec(),
        b"TRUE".to_vec(),
        b"1".to_vec(),
        b"-1.5e-3".to_vec(),
        b"+.5E+7".to_vec(),
        b"1.".to_vec(),
        b".".to_vec(),
        b"iNf".to_vec(),
        b"+InFiNiTy".to_vec(),
        b"nAn".to_vec(),
        b"infinity ".to_vec(),
        b"1e".to_vec(),
        b"e".to_vec(),
        b"E5".to_vec(),
        b"5e05".to_vec(),
        b"hello world".to_vec(),
        "\u{1680}[".as_bytes().to_vec(),
        "\u{2028}{".as_bytes().to_vec(),
        "\u{2029}{".as_bytes().to_vec(),
        "\u{202f}{".as_bytes().to_vec(),
        "\u{205f}{".as_bytes().to_vec(),
        "\u{200a}{".as_bytes().to_vec(),
        "\u{2000}{".as_bytes().to_vec(),
        "\u{feff}{".as_bytes().to_vec(),
        "\u{180e}{".as_bytes().to_vec(),
        "é".as_bytes().to_vec(),
        "１２".as_bytes().to_vec(),
        vec![0xff],
        vec![0xc0, 0x80],
        vec![0xed, 0xa0, 0x80],
        vec![0xf4, 0x90, 0x80, 0x80],
        vec![0xe2, 0x82],
        vec![0x00],
    ];
    for sample in samples {
        assert_eq!(detect(&sample), by_the_rule(&sample), "{:?}", sample);
    }
}

#[test]
fn every_short_ascii_text_agrees_with_the_rule() {
    let alphabet: &[u8] = b"0123456789+-.eEinfatyNIF {[";
    let mut texts: Vec<Vec<u8>> = vec![vec![]];
    let mut last: Vec<Vec<u8>> = vec![vec![]];
    for _ in 0..3 {
        let mut next = Vec::new();
        for text in &last {
            for &c in alphabet {
                let mut longer = text.clone();
                longer.push(c);
                next.push(longer);
            }
        }
        texts.extend(next.iter().cloned());
        last = next;
    }
    for text in texts {
        assert_eq!(detect(&text), by_the_rule(&text), "{:?}", text);
    }
}

#[test]
fn names_of_the_hints() {
    assert_eq!(ValueType::String.name(), "String");
    assert_eq!(ValueType::Number.name(), "Number");
    assert_eq!(ValueType::Boolean.name(), "Boolean");
    assert_eq!(ValueType::Json.name(), "Json");
    assert_eq!(ValueType::Binary.name(), "Binary");
}

#[test]
fn leading_white_space_is_what_char_says_it_is() {
    for code in 0..=0x10FFFFu32 {
        if let Some(c) = char::from_u32(code) {
            let mut text = String::new();
            text.push(c);
            text.push('{');
            let expected = if c.is_whitespace() || c == '{' || c == '[' {
                ValueType::Json
            } else {
                ValueType::String
            };
            assert_eq!(detect(text.as_bytes()), expected, "{:x}", code);
        }
    }
}
