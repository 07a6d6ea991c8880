use odyssey_lexer::error::{LexError, LexErrorKind};
use odyssey_lexer::lexer::Lexer;
use odyssey_lexer::token::Token;

/// The diagnostic of the first failure in `src`.
fn failure(src: &str) -> LexError<'_> {
    let mut lexer = Lexer::new(src);
    loop {
        match lexer.lex() {
            Err(e) => return e,
            Ok(Token::EOF) => panic!("the input has no faulty lexeme"),
            Ok(_) => {}
        }
    }
}

#[test]
fn illegal_character() {
    let e = failure("1 @ 1");
    assert_eq!(e.error, "illegal token in input stream");
    assert_eq!(e.error, LexErrorKind::IllegalCharacter.message());
    assert_eq!(e.start_index, 2);
    assert_eq!(e.index, 3);
    assert_eq!(e.err_line, "1 @ 1");
}

#[test]
fn number_format_error() {
    let e = failure("x = 1.2.3;");
    assert_eq!(e.error, "Failed to convert source slice to float");
    assert_eq!(e.error, LexErrorKind::NumberFormatError.message());
    assert_eq!(e.start_index, 4);
    assert_eq!(e.index, 9);
    assert_eq!(e.err_line, "x = 1.2.3;");
}

#[test]
fn number_format_error_spans_the_hexadecimal_letters() {
    let e = failure("12abz");
    assert_eq!(e.error, LexErrorKind::NumberFormatError.message());
    assert_eq!(e.start_index, 0);
    assert_eq!(e.index, 4);
}

#[test]
fn columns_count_within_the_line() {
    let e = failure("let a = 1\nlet b = ?");
    assert_eq!(e.error, LexErrorKind::IllegalCharacter.message());
    assert_eq!(e.start_index, 8);
    assert_eq!(e.index, 9);
    assert_eq!(e.err_line, "let b = ?");
    let e = failure("a\n@");
    assert_eq!(e.start_index, 0);
    assert_eq!(e.index, 1);
    assert_eq!(e.err_line, "@");
}

#[test]
fn whitespace_behind_a_newline_is_illegal() {
    let e = failure("1\n 2");
    assert_eq!(e.error, LexErrorKind::IllegalCharacter.message());
    assert_eq!(e.start_index, 0);
    assert_eq!(e.index, 1);
    assert_eq!(e.err_line, " 2");
}

#[test]
fn a_comment_counts_no_line() {
    let e = failure("#c\n1\n@");
    assert_eq!(e.error, LexErrorKind::IllegalCharacter.message());
    assert_eq!(e.start_index, 0);
    assert_eq!(e.index, 1);
    assert_eq!(e.err_line, "1");
    let e = failure("ab #c\n  ?");
    assert_eq!(e.start_index, 8);
    assert_eq!(e.index, 9);
    assert_eq!(e.err_line, "ab #c");
}

#[test]
fn carriage_return_stays_in_the_line() {
    let e = failure("a\r\n$\r\n");
    assert_eq!(e.start_index, 0);
    assert_eq!(e.index, 1);
    assert_eq!(e.err_line, "$\r");
}

#[test]
fn rendering() {
    let e = failure("1 @ 1");
    assert_eq!(
        e.to_string(),
        "error: illegal token in input stream\n| 1 @ 1\n    ^"
    );
    let e = failure("x = 1.2.3;");
    assert_eq!(
        e.to_string(),
        "error: Failed to convert source slice to float\n| x = 1.2.3;\n      ^~~~~"
    );
}

#[test]
fn rendering_of_given_columns() {
    let e = LexError::new_with_index("bad", 7, 3, "abc defg");
    assert_eq!(e.to_string(), "error: bad\n| abc defg\n     ^~~~");
    let e = LexError::new_with_index("bad", 1, 0, "x");
    assert_eq!(e.to_string(), "error: bad\n| x\n  ^");
    let e = LexError::new_with_index("bad", 0, 0, "");
    assert_eq!(e.to_string(), "error: bad\n| \n  ^");
    let e = LexError::new_with_index("bad", 2, 5, "abcdefgh");
    assert_eq!(e.to_string(), "error: bad\n| abcdefgh\n       ^");
}

#[test]
fn constructors() {
    let e = LexError::new("message", "line");
    assert_eq!(e.error, "message");
    assert_eq!(e.index, 0);
    assert_eq!(e.start_index, 0);
    assert_eq!(e.err_line, "line");
    assert_eq!(e.to_string(), "error: message\n| line\n  ^");
    let e = LexError::new_with_index("message", 4, 2, "line");
    assert_eq!(e.error, "message");
    assert_eq!(e.index, 4);
    assert_eq!(e.start_index, 2);
    assert_eq!(e.err_line, "line");
}

#[test]
fn messages() {
    assert_eq!(
        LexErrorKind::IllegalCharacter.message(),
        "illegal token in input stream"
    );
    assert_eq!(
        LexErrorKind::NumberFormatError.message(),
        "Failed to convert source slice to float"
    );
}
