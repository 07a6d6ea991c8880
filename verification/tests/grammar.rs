use odyssey_lexer::chars::{
    is_compound_symbol, is_digit, is_hex_digit, is_letter, is_number_char, is_number_start,
    is_plain_symbol, is_whitespace, is_word_char,
};
use odyssey_lexer::number::is_decimal_literal;
use odyssey_lexer::text::{span_text, spells};
use odyssey_lexer::token::{word, Token};

fn literal(text: &str) -> bool {
    let chars: Vec<char> = text.chars().collect();
    is_decimal_literal(&chars, 0, chars.len())
}

#[test]
fn decimal_literals() {
    for text in ["0", "7", "007", "1.1111", ".5", "3.", "2e10", "2E10", "1.5e0", ".5e1", "5.e1"] {
        assert!(literal(text), "{}", text);
        assert!(text.parse::<f64>().is_ok(), "{}", text);
    }
}

#[test]
fn no_decimal_literals() {
    for text in [
        "", ".", "..", "1.2.3", "1..", "e", "e1", "1e", "1e1e1", "1e1.5", ".e1", "12ab", "1f",
        "1 ", " 1", "1e+1", "-1", "+1", "1_0", "0x10", "abc",
    ] {
        assert!(!literal(text), "{}", text);
    }
}

#[test]
fn literal_within_a_span() {
    let chars: Vec<char> = "a1.5b".chars().collect();
    assert!(is_decimal_literal(&chars, 1, 4));
    assert!(!is_decimal_literal(&chars, 0, 4));
    assert!(!is_decimal_literal(&chars, 1, 5));
    assert!(!is_decimal_literal(&chars, 2, 2));
    assert!(!is_decimal_literal(&chars, 2, 3));
    assert!(is_decimal_literal(&chars, 2, 4));
}

#[test]
fn literals_agree_with_the_float_parser() {
    let alphabet = ['0', '9', '.', 'e', 'E', 'a', 'F'];
    let mut texts: Vec<String> = vec![String::new()];
    for _ in 0..4 {
        let mut longer = Vec::new();
        for text in &texts {
            for c in alphabet {
                let mut next = text.clone();
                next.push(c);
                longer.push(next);
            }
        }
        for text in &longer {
            let first = text.chars().next().unwrap();
            if first == '.' || first.is_ascii_digit() {
                assert_eq!(literal(text), text.parse::<f64>().is_ok(), "{}", text);
            }
        }
        texts = longer;
    }
}

#[test]
fn character_classes() {
    for c in [' ', '\t', '\n', '\r', '\u{c}'] {
        assert!(is_whitespace(c));
    }
    for c in ['\u{b}', 'a', '0', '\u{a0}', '\u{2003}'] {
        assert!(!is_whitespace(c));
    }
    for c in '\0'..='\u{ff}' {
        assert_eq!(is_whitespace(c), c.is_ascii_whitespace());
        assert_eq!(is_digit(c), c.is_ascii_digit());
        assert_eq!(is_hex_digit(c), c.is_ascii_hexdigit());
        assert_eq!(is_letter(c), c.is_ascii_alphabetic());
        assert_eq!(is_number_start(c), c == '.' || c.is_ascii_digit());
        assert_eq!(is_number_char(c), c == '.' || c.is_ascii_hexdigit());
        assert_eq!(is_word_char(c), c == '_' || c.is_ascii_alphanumeric());
        assert_eq!(is_plain_symbol(c), "/*()[]{},;%".contains(c));
        assert_eq!(is_compound_symbol(c), "><=!+-".contains(c));
    }
}

#[test]
fn spans() {
    let chars: Vec<char> = "let letter".chars().collect();
    assert_eq!(span_text(&chars, 4, 10), "letter");
    assert_eq!(span_text(&chars, 0, 3), "let");
    assert_eq!(span_text(&chars, 3, 3), "");
    assert!(spells(&chars, 0, 3, "let"));
    assert!(spells(&chars, 4, 7, "let"));
    assert!(!spells(&chars, 4, 10, "let"));
    assert!(!spells(&chars, 0, 2, "let"));
    assert!(!spells(&chars, 1, 4, "let"));
    assert!(spells(&chars, 5, 5, ""));
    assert!(matches!(word(&chars, 0, 3), Token::Let));
    match word(&chars, 4, 10) {
        Token::Ident(name) => assert_eq!(name, "letter"),
        other => panic!("unexpected {:?}", other),
    }
}
