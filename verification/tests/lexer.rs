use odyssey_lexer::lexer::{Lexer, Token};

/// A token with its number as a value, for comparing token sequences.
#[derive(Debug)]
enum Tok {
    Number(f64),
    Boolean(bool),
    OperatorOrSym(String),
    For,
    While,
    And,
    Or,
    Func,
    Let,
    Ident(String),
    Num,
    Bool,
    Nil,
    Comment,
    EOF,
}

impl Tok {
    /// The same token as the library writes it, with the number as text.
    fn written(&self) -> Token {
        match self {
            Tok::Number(value) => Token::Number(value.to_string()),
            Tok::Boolean(value) => Token::Boolean(*value),
            Tok::OperatorOrSym(text) => Token::OperatorOrSym(text.clone()),
            Tok::For => Token::For,
            Tok::While => Token::While,
            Tok::And => Token::And,
            Tok::Or => Token::Or,
            Tok::Func => Token::Func,
            Tok::Let => Token::Let,
            Tok::Ident(name) => Token::Ident(name.clone()),
            Tok::Num => Token::Num,
            Tok::Bool => Token::Bool,
            Tok::Nil => Token::Nil,
            Tok::Comment => Token::Comment,
            Tok::EOF => Token::EOF,
        }
    }
}

/// Whether two numbers are equal within the tolerance of token equality.
fn close(x: f64, y: f64) -> bool {
    f64::abs(x - y) < 0.0001
}

impl PartialEq for Tok {
    fn eq(&self, other: &Self) -> bool {
        let numbers_close = match (self, other) {
            (Tok::Number(x), Tok::Number(y)) => close(*x, *y),
            _ => false,
        };
        self.written().equals(&other.written(), numbers_close)
    }
}

fn tok(token: Token) -> Tok {
    match token {
        Token::Number(text) => Tok::Number(text.parse().unwrap()),
        Token::Boolean(value) => Tok::Boolean(value),
        Token::OperatorOrSym(text) => Tok::OperatorOrSym(text),
        Token::For => Tok::For,
        Token::While => Tok::While,
        Token::And => Tok::And,
        Token::Or => Tok::Or,
        Token::Func => Tok::Func,
        Token::Let => Tok::Let,
        Token::Ident(name) => Tok::Ident(name),
        Token::Num => Tok::Num,
        Token::Bool => Tok::Bool,
        Token::Nil => Tok::Nil,
        Token::Comment => Tok::Comment,
        Token::EOF => Tok::EOF,
    }
}

/// The tokens of `src` up to the end of the input or the first failure.
fn collect(src: &str) -> Vec<Tok> {
    let mut lexer = Lexer::new(src);
    let mut out = Vec::new();
    while let Some(token) = lexer.next() {
        out.push(tok(token));
    }
    out
}

fn op(text: &str) -> Tok {
    Tok::OperatorOrSym(text.to_string())
}

#[test]
fn single_char_oper() {
    let mut result = collect("1 + 1");
    assert_eq!(
        result,
        [Tok::Number(1.0), Tok::OperatorOrSym("+".to_string()), Tok::Number(1.0)]
    );
    result = collect("1 / 1");
    assert_eq!(
        result,
        [Tok::Number(1.0), Tok::OperatorOrSym("/".to_string()), Tok::Number(1.0)]
    );
    result = collect("1 + (1 + 1) / 2;");
    assert_eq!(
        result,
        [
            Tok::Number(1.0),
            Tok::OperatorOrSym("+".to_string()),
            Tok::OperatorOrSym("(".to_string()),
            Tok::Number(1.0),
            Tok::OperatorOrSym("+".to_string()),
            Tok::Number(1.0),
            Tok::OperatorOrSym(")".to_string()),
            Tok::OperatorOrSym("/".to_string()),
            Tok::Number(2.0),
            Tok::OperatorOrSym(";".to_string())
        ]
    );
}

#[test]
fn two_char_oper() {
    let mut result = collect("1 += 1");
    assert_eq!(
        result,
        [Tok::Number(1.0), Tok::OperatorOrSym("+=".to_string()), Tok::Number(1.0)]
    );
    result = collect("1 == 1");
    assert_eq!(
        result,
        [Tok::Number(1.0), Tok::OperatorOrSym("==".to_string()), Tok::Number(1.0)]
    );
    result = collect("1 >= 1");
    assert_eq!(
        result,
        [Tok::Number(1.0), Tok::OperatorOrSym(">=".to_string()), Tok::Number(1.0)]
    )
}

#[test]
fn float_num() {
    let result = collect("1 += 1.1111");
    assert_eq!(
        result,
        [Tok::Number(1.0), Tok::OperatorOrSym("+=".to_string()), Tok::Number(1.1111)]
    )
}

#[test]
fn misc() {
    let result = collect("1 += some_string");
    assert_eq!(
        result,
        [
            Tok::Number(1.0),
            Tok::OperatorOrSym("+=".to_string()),
            Tok::Ident("some_string".to_string())
        ]
    );
    let result = collect("1 == some_string");
    assert_eq!(
        result,
        [
            Tok::Number(1.0),
            Tok::OperatorOrSym("==".to_string()),
            Tok::Ident("some_string".to_string())
        ]
    );
}

#[test]
fn greedy_two_char_operator() {
    assert_eq!(collect("1 >= 1"), [Tok::Number(1.0), op(">="), Tok::Number(1.0)]);
    assert_eq!(collect("1 > 1"), [Tok::Number(1.0), op(">"), Tok::Number(1.0)]);
}

#[test]
fn every_compound_operator() {
    assert_eq!(
        collect(">= <= == != += -="),
        [op(">="), op("<="), op("=="), op("!="), op("+="), op("-=")]
    );
    assert_eq!(
        collect("> < = ! + -"),
        [op(">"), op("<"), op("="), op("!"), op("+"), op("-")]
    );
    assert_eq!(collect(">=="), [op(">="), op("=")]);
    assert_eq!(collect("=>"), [op("="), op(">")]);
}

#[test]
fn lookahead_stops_at_end_of_input() {
    assert_eq!(collect("1 >"), [Tok::Number(1.0), op(">")]);
    assert_eq!(collect("="), [op("=")]);
}

#[test]
fn every_plain_symbol() {
    assert_eq!(
        collect("/*()[]{},;%"),
        [
            op("/"),
            op("*"),
            op("("),
            op(")"),
            op("["),
            op("]"),
            op("{"),
            op("}"),
            op(","),
            op(";"),
            op("%")
        ]
    );
    assert_eq!(collect("%="), [op("%"), op("=")]);
}

#[test]
fn keyword_and_identifier_boundary() {
    assert_eq!(collect("fn"), [Tok::Func]);
    assert_eq!(collect("fnord"), [Tok::Ident("fnord".to_string())]);
}

#[test]
fn keyword_table() {
    assert_eq!(
        collect("for while and or let fn bool true false nil num"),
        [
            Tok::For,
            Tok::While,
            Tok::And,
            Tok::Or,
            Tok::Let,
            Tok::Func,
            Tok::Bool,
            Tok::Boolean(true),
            Tok::Boolean(false),
            Tok::Nil,
            Tok::Num
        ]
    );
}

#[test]
fn keywords_are_case_sensitive() {
    assert_eq!(
        collect("For TRUE Nil lets"),
        [
            Tok::Ident("For".to_string()),
            Tok::Ident("TRUE".to_string()),
            Tok::Ident("Nil".to_string()),
            Tok::Ident("lets".to_string())
        ]
    );
}

#[test]
fn identifier_characters() {
    assert_eq!(collect("a_b9 Z"), [Tok::Ident("a_b9".to_string()), Tok::Ident("Z".to_string())]);
    assert_eq!(collect("x-y"), [Tok::Ident("x".to_string()), op("-"), Tok::Ident("y".to_string())]);
    assert_eq!(collect("g1.5"), [Tok::Ident("g1".to_string()), Tok::Number(0.5)]);
}

#[test]
fn identifier_stops_at_a_letter_outside_ascii() {
    assert_eq!(collect("caf\u{e9}"), [Tok::Ident("caf".to_string())]);
    let mut lexer = Lexer::new("caf\u{e9}");
    assert!(lexer.lex().is_ok());
    assert!(lexer.lex().is_err());
}

#[test]
fn underscore_starts_no_identifier() {
    assert_eq!(collect("_a"), []);
    assert!(Lexer::new("_a").lex().is_err());
}

#[test]
fn comment_skip() {
    assert_eq!(
        collect("1 #comment\n+ 1"),
        [Tok::Number(1.0), Tok::Comment, op("+"), Tok::Number(1.0)]
    );
}

#[test]
fn comment_runs_to_the_end_of_input() {
    assert_eq!(collect("1 # no newline"), [Tok::Number(1.0), Tok::Comment]);
    assert_eq!(collect("#"), [Tok::Comment]);
    assert_eq!(collect("#a#b\n#c"), [Tok::Comment, Tok::Comment]);
}

#[test]
fn number_forms() {
    assert_eq!(collect("7"), [Tok::Number(7.0)]);
    assert_eq!(collect(".5"), [Tok::Number(0.5)]);
    assert_eq!(collect("3."), [Tok::Number(3.0)]);
    assert_eq!(collect("2e3"), [Tok::Number(2000.0)]);
    assert_eq!(collect("1.5E2"), [Tok::Number(150.0)]);
    assert_eq!(collect("0.25 10"), [Tok::Number(0.25), Tok::Number(10.0)]);
}

#[test]
fn number_text_is_the_source_text() {
    let mut lexer = Lexer::new("  001.50 ");
    match lexer.lex() {
        Ok(Token::Number(text)) => assert_eq!(text, "001.50"),
        other => panic!("unexpected {:?}", other.is_ok()),
    }
}

#[test]
fn number_takes_hexadecimal_letters_along() {
    assert_eq!(collect("1 12ab"), [Tok::Number(1.0)]);
    assert!(Lexer::new("12ab").lex().is_err());
    assert_eq!(collect("1f"), []);
    assert_eq!(collect("1g"), [Tok::Number(1.0), Tok::Ident("g".to_string())]);
    assert_eq!(collect("0x10"), [Tok::Number(0.0), Tok::Ident("x10".to_string())]);
}

#[test]
fn malformed_numbers_end_the_stream() {
    assert_eq!(collect("1.2.3"), []);
    assert_eq!(collect("."), []);
    assert_eq!(collect("1e"), []);
    assert_eq!(collect("e1"), [Tok::Ident("e1".to_string())]);
    assert_eq!(collect("2 + 1..2 + 3"), [Tok::Number(2.0), op("+")]);
}

#[test]
fn empty_input_is_end_of_input() {
    let mut lexer = Lexer::new("");
    assert!(matches!(lexer.lex(), Ok(Token::EOF)));
    assert_eq!(collect(""), []);
    let (tokens, failure) = Lexer::new("").tokens();
    assert!(tokens.is_empty());
    assert!(failure.is_none());
}

#[test]
fn end_of_input_repeats() {
    let mut lexer = Lexer::new("a  ");
    assert!(matches!(lexer.lex(), Ok(Token::Ident(_))));
    assert!(matches!(lexer.lex(), Ok(Token::EOF)));
    assert!(matches!(lexer.lex(), Ok(Token::EOF)));
    assert!(lexer.next().is_none());
}

#[test]
fn after_a_failure_only_end_of_input() {
    let mut lexer = Lexer::new("1 @ 2 3");
    assert!(matches!(lexer.lex(), Ok(Token::Number(_))));
    assert!(lexer.lex().is_err());
    assert!(matches!(lexer.lex(), Ok(Token::EOF)));
    assert!(matches!(lexer.lex(), Ok(Token::EOF)));
    assert!(lexer.next().is_none());
    let (tokens, failure) = lexer.tokens();
    assert!(tokens.is_empty());
    assert!(failure.is_none());
}

#[test]
fn illegal_character_ends_the_stream() {
    assert_eq!(collect("1 @ 1"), [Tok::Number(1.0)]);
    assert_eq!(collect("a $"), [Tok::Ident("a".to_string())]);
    assert_eq!(collect("\"text\""), []);
}

#[test]
fn whitespace_between_tokens_is_idle() {
    let plain = collect("1+(a>=2);");
    assert_eq!(plain, collect("1 + ( a >= 2 ) ;"));
    assert_eq!(plain, collect("  1\t+\t\t(a   >=2 )\t;  "));
    assert_eq!(plain, [
        Tok::Number(1.0),
        op("+"),
        op("("),
        Tok::Ident("a".to_string()),
        op(">="),
        Tok::Number(2.0),
        op(")"),
        op(";")
    ]);
    assert_eq!(collect("a\r\u{c}b"), [Tok::Ident("a".to_string()), Tok::Ident("b".to_string())]);
}

#[test]
fn whitespace_inside_an_operator_splits_it() {
    assert_eq!(collect("1 > = 1"), [Tok::Number(1.0), op(">"), op("="), Tok::Number(1.0)]);
}

#[test]
fn skip_stops_behind_a_newline() {
    assert_eq!(collect("1\n2"), [Tok::Number(1.0), Tok::Number(2.0)]);
    assert_eq!(collect("1  \n+"), [Tok::Number(1.0), op("+")]);
    assert_eq!(collect("1\n"), [Tok::Number(1.0)]);
    assert!(matches!(Lexer::new("\n").lex(), Ok(Token::EOF)));
    assert_eq!(collect("1\n 2"), [Tok::Number(1.0)]);
    assert_eq!(collect("1\n\n2"), [Tok::Number(1.0)]);
    let mut lexer = Lexer::new("1\n 2");
    assert!(lexer.lex().is_ok());
    assert!(lexer.lex().is_err());
}

#[test]
fn tokens_come_in_source_order() {
    let src = "let x1 = 3.5 * (y - 2); # done\nwhile x1 >= 0 { x1 -= 1 }";
    let mut lexer = Lexer::new(src);
    let (tokens, failure) = lexer.tokens();
    assert!(failure.is_none());
    let mut joined = String::new();
    for token in &tokens {
        match token {
            Token::Number(text) | Token::OperatorOrSym(text) | Token::Ident(text) => {
                joined.push_str(text)
            }
            Token::Let => joined.push_str("let"),
            Token::While => joined.push_str("while"),
            Token::Comment => {}
            other => panic!("unexpected {:?}", other),
        }
    }
    assert_eq!(joined, "letx1=3.5*(y-2);whilex1>=0{x1-=1}");
    assert_eq!(tokens.len(), 21);
}

#[test]
fn tokens_hands_out_the_diagnostic() {
    let mut lexer = Lexer::new("a + ?b");
    let (tokens, failure) = lexer.tokens();
    assert_eq!(tokens.len(), 2);
    let failure = failure.unwrap();
    assert_eq!(failure.error, "illegal token in input stream");
    assert_eq!(failure.start_index, 4);
    assert_eq!(failure.index, 5);
    assert_eq!(failure.err_line, "a + ?b");
}

#[test]
fn tokens_continues_from_the_cursor() {
    let mut lexer = Lexer::new("a b c");
    assert!(matches!(lexer.lex(), Ok(Token::Ident(_))));
    let (tokens, failure) = lexer.tokens();
    assert!(failure.is_none());
    assert_eq!(tokens.len(), 2);
    match &tokens[1] {
        Token::Ident(name) => assert_eq!(name, "c"),
        other => panic!("unexpected {:?}", other),
    }
}

#[test]
fn expect_next_consumes_only_a_match() {
    let mut lexer = Lexer::new("=a");
    assert!(!lexer.expect_next('a'));
    assert!(lexer.expect_next('='));
    assert!(!lexer.expect_next('='));
    assert!(lexer.expect_next('a'));
    assert!(!lexer.expect_next('a'));
    assert!(matches!(lexer.lex(), Ok(Token::EOF)));
    let mut lexer = Lexer::new("x y");
    assert!(lexer.expect_next('x'));
    match lexer.lex() {
        Ok(Token::Ident(name)) => assert_eq!(name, "y"),
        _ => panic!("an identifier was expected"),
    }
}

#[test]
fn number_tolerance() {
    assert_eq!(Tok::Number(1.00005), Tok::Number(1.0001));
    assert_ne!(Tok::Number(1.0), Tok::Number(1.1));
    assert_eq!(collect("1.00005"), [Tok::Number(1.0001)]);
    assert_ne!(collect("1.0"), [Tok::Number(1.1)]);
}

#[test]
fn token_equality() {
    let number = || Token::Number("1".to_string());
    assert!(number().equals(&Token::Number("2".to_string()), true));
    assert!(!number().equals(&number(), false));
    assert!(!number().equals(&Token::Ident("1".to_string()), true));
    assert!(!Token::Ident("1".to_string()).equals(&number(), true));
    let plus = || Token::OperatorOrSym("+".to_string());
    assert!(plus().equals(&plus(), false));
    assert!(!plus().equals(&Token::OperatorOrSym("+=".to_string()), true));
    assert!(!plus().equals(&Token::Ident("+".to_string()), true));
    assert!(Token::Ident("a".to_string()).equals(&Token::Ident("a".to_string()), false));
    assert!(!Token::Ident("a".to_string()).equals(&Token::Ident("b".to_string()), true));
    assert!(Token::Boolean(true).equals(&Token::Boolean(true), false));
    assert!(Token::Boolean(true).equals(&Token::Boolean(false), false));
    assert!(Token::Boolean(false).equals(&Token::Boolean(true), true));
    assert!(!Token::Boolean(true).equals(&Token::Bool, true));
    assert!(!Token::Boolean(true).equals(&Token::Ident("true".to_string()), true));
    let plain = || {
        [
            Token::For,
            Token::While,
            Token::And,
            Token::Or,
            Token::Func,
            Token::Let,
            Token::Num,
            Token::Bool,
            Token::Nil,
            Token::Comment,
            Token::EOF,
        ]
    };
    for (i, a) in plain().iter().enumerate() {
        for (j, b) in plain().iter().enumerate() {
            assert_eq!(a.equals(b, false), i == j);
            assert_eq!(a.equals(b, true), i == j);
        }
        assert!(!a.equals(&number(), true));
        assert!(!a.equals(&Token::Boolean(true), true));
    }
}

#[test]
fn booleans_compare_by_kind() {
    assert_eq!(Tok::Boolean(true), Tok::Boolean(false));
    assert_eq!(collect("true"), [Tok::Boolean(false)]);
    assert_ne!(collect("true"), [Tok::Bool]);
}

#[test]
fn boolean_values() {
    let mut lexer = Lexer::new("true false");
    assert!(matches!(lexer.lex(), Ok(Token::Boolean(true))));
    assert!(matches!(lexer.lex(), Ok(Token::Boolean(false))));
    assert!(matches!(lexer.lex(), Ok(Token::EOF)));
}
