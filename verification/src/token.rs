//! Tokens and their mathematical model.

use vstd::prelude::*;
use crate::text::{span_text, spells};

verus! {

/// One classified lexeme.
///
/// A numeric literal carries its text. As the scanner makes it, the text
/// stands exactly so in the source and is a numeric literal of the grammar
/// in [`crate::number`]; the variant itself takes any string. Which
/// arithmetic gives the text a value is the consumer's choice.
#[derive(Debug)]
pub enum Token {
    /// A numeric literal, by its text.
    Number(String),
    /// `true` or `false`.
    Boolean(bool),
    /// Punctuation or an operator of one or two characters, by its text.
    OperatorOrSym(String),
    /// The keyword `for`.
    For,
    /// The keyword `while`.
    While,
    /// The keyword `and`.
    And,
    /// The keyword `or`.
    Or,
    /// The keyword `fn`.
    Func,
    /// The keyword `let`.
    Let,
    /// An identifier, by its name.
    Ident(String),
    /// The type name `num`.
    Num,
    /// The type name `bool`.
    Bool,
    /// The type name `nil`.
    Nil,
    /// A comment was passed over.
    Comment,
    /// The end of the input.
    EOF,
}

/// What a [`Token`] is, with sequences of characters in place of strings.
pub enum TokenView {
    Number(Seq<char>),
    Boolean(bool),
    OperatorOrSym(Seq<char>),
    For,
    While,
    And,
    Or,
    Func,
    Let,
    Ident(Seq<char>),
    Num,
    Bool,
    Nil,
    Comment,
    EOF,
}

impl View for Token {
    type V = TokenView;

    open spec fn view(&self) -> TokenView {
        match self {
            Token::Number(text) => TokenView::Number(text@),
            Token::Boolean(value) => TokenView::Boolean(*value),
            Token::OperatorOrSym(text) => TokenView::OperatorOrSym(text@),
            Token::For => TokenView::For,
            Token::While => TokenView::While,
            Token::And => TokenView::And,
            Token::Or => TokenView::Or,
            Token::Func => TokenView::Func,
            Token::Let => TokenView::Let,
            Token::Ident(name) => TokenView::Ident(name@),
            Token::Num => TokenView::Num,
            Token::Bool => TokenView::Bool,
            Token::Nil => TokenView::Nil,
            Token::Comment => TokenView::Comment,
            Token::EOF => TokenView::EOF,
        }
    }
}

/// Whether two tokens are equal, where `numbers_close` says whether their
/// numbers are.
///
/// Two numeric literals are equal when their values are close to each
/// other; that comparison is made on the values, outside this library, and
/// `numbers_close` is its result. Nothing else depends on it: operators and
/// identifiers are equal when their texts are, and any other two tokens
/// when they are of the same kind. So two booleans are equal whatever their
/// values: `true` equals `false`.
pub open spec fn tokens_equal(a: TokenView, b: TokenView, numbers_close: bool) -> bool {
    match (a, b) {
        (TokenView::Number(_), TokenView::Number(_)) => numbers_close,
        (TokenView::OperatorOrSym(x), TokenView::OperatorOrSym(y)) => x == y,
        (TokenView::Ident(x), TokenView::Ident(y)) => x == y,
        (TokenView::Boolean(_), TokenView::Boolean(_)) => true,
        (TokenView::For, TokenView::For) => true,
        (TokenView::While, TokenView::While) => true,
        (TokenView::And, TokenView::And) => true,
        (TokenView::Or, TokenView::Or) => true,
        (TokenView::Func, TokenView::Func) => true,
        (TokenView::Let, TokenView::Let) => true,
        (TokenView::Num, TokenView::Num) => true,
        (TokenView::Bool, TokenView::Bool) => true,
        (TokenView::Nil, TokenView::Nil) => true,
        (TokenView::Comment, TokenView::Comment) => true,
        (TokenView::EOF, TokenView::EOF) => true,
        _ => false,
    }
}

impl Token {
    /// Whether this token equals `other`, where `numbers_close` says whether
    /// the values of the two are close, should both be numeric literals. See
    /// [`tokens_equal`].
    pub fn equals(&self, other: &Token, numbers_close: bool) -> (r: bool)
        ensures
            r == tokens_equal(self@, other@, numbers_close),
    {
        match (self, other) {
            (Token::Number(_), Token::Number(_)) => numbers_close,
            (Token::OperatorOrSym(x), Token::OperatorOrSym(y)) => *x == *y,
            (Token::Ident(x), Token::Ident(y)) => *x == *y,
            (Token::Boolean(_), Token::Boolean(_)) => true,
            (Token::For, Token::For) => true,
            (Token::While, Token::While) => true,
            (Token::And, Token::And) => true,
            (Token::Or, Token::Or) => true,
            (Token::Func, Token::Func) => true,
            (Token::Let, Token::Let) => true,
            (Token::Num, Token::Num) => true,
            (Token::Bool, Token::Bool) => true,
            (Token::Nil, Token::Nil) => true,
            (Token::Comment, Token::Comment) => true,
            (Token::EOF, Token::EOF) => true,
            _ => false,
        }
    }
}

/// The models of a sequence of tokens, in the same order.
pub open spec fn views(tokens: Seq<Token>) -> Seq<TokenView> {
    Seq::new(tokens.len(), |i: int| tokens[i]@)
}

/// The token for a word, which is a run of letters, digits and underscores:
/// the keyword, constant or type name that the word spells, and otherwise an
/// identifier of that name. The table is case-sensitive.
pub open spec fn word_token(word: Seq<char>) -> TokenView {
    if word == "for"@ {
        TokenView::For
    } else if word == "while"@ {
        TokenView::While
    } else if word == "and"@ {
        TokenView::And
    } else if word == "or"@ {
        TokenView::Or
    } else if word == "let"@ {
        TokenView::Let
    } else if word == "fn"@ {
        TokenView::Func
    } else if word == "bool"@ {
        TokenView::Bool
    } else if word == "true"@ {
        TokenView::Boolean(true)
    } else if word == "false"@ {
        TokenView::Boolean(false)
    } else if word == "nil"@ {
        TokenView::Nil
    } else if word == "num"@ {
        TokenView::Num
    } else {
        TokenView::Ident(word)
    }
}

/// The source text that a token stands for. A comment's text is dropped
/// with the comment, and the end of the input has none.
pub open spec fn lexeme(token: TokenView) -> Seq<char> {
    match token {
        TokenView::Number(text) => text,
        TokenView::Boolean(value) => if value {
            "true"@
        } else {
            "false"@
        },
        TokenView::OperatorOrSym(text) => text,
        TokenView::For => "for"@,
        TokenView::While => "while"@,
        TokenView::And => "and"@,
        TokenView::Or => "or"@,
        TokenView::Func => "fn"@,
        TokenView::Let => "let"@,
        TokenView::Ident(name) => name,
        TokenView::Num => "num"@,
        TokenView::Bool => "bool"@,
        TokenView::Nil => "nil"@,
        TokenView::Comment => Seq::empty(),
        TokenView::EOF => Seq::empty(),
    }
}

/// The source texts of a sequence of tokens, joined in order.
pub open spec fn lexemes(tokens: Seq<TokenView>) -> Seq<char>
    decreases tokens.len(),
{
    if tokens.len() == 0 {
        Seq::empty()
    } else {
        lexeme(tokens[0]) + lexemes(tokens.subrange(1, tokens.len() as int))
    }
}

/// The token for the word that the characters of `chars` from `start` up to
/// `end` spell.
pub fn word(chars: &Vec<char>, start: usize, end: usize) -> (token: Token)
    requires
        start <= end <= chars.len(),
    ensures
        token@ == word_token(chars@.subrange(start as int, end as int)),
{
    if spells(chars, start, end, "for") {
        Token::For
    } else if spells(chars, start, end, "while") {
        Token::While
    } else if spells(chars, start, end, "and") {
        Token::And
    } else if spells(chars, start, end, "or") {
        Token::Or
    } else if spells(chars, start, end, "let") {
        Token::Let
    } else if spells(chars, start, end, "fn") {
        Token::Func
    } else if spells(chars, start, end, "bool") {
        Token::Bool
    } else if spells(chars, start, end, "true") {
        Token::Boolean(true)
    } else if spells(chars, start, end, "false") {
        Token::Boolean(false)
    } else if spells(chars, start, end, "nil") {
        Token::Nil
    } else if spells(chars, start, end, "num") {
        Token::Num
    } else {
        Token::Ident(span_text(chars, start, end))
    }
}

/// A word token stands for the word it was made from.
pub proof fn lemma_word_lexeme(word: Seq<char>)
    ensures
        lexeme(word_token(word)) == word,
{
}

} // verus!
