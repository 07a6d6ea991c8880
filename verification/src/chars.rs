//! Character classes of the source language.
//!
//! Every class is a set of ASCII characters. Each comes as a predicate for
//! contracts and as an executable test that is proved to decide it.

use vstd::prelude::*;

verus! {

/// ASCII whitespace: space, horizontal tab, line feed, form feed and
/// carriage return.
pub open spec fn whitespace(c: char) -> bool {
    c == ' ' || c == '\t' || c == '\n' || c == '\x0C' || c == '\r'
}

/// Whitespace within a line: any whitespace but the newline. Spaces and
/// tabs are such.
pub open spec fn spacing(c: char) -> bool {
    whitespace(c) && c != '\n'
}

/// A decimal digit.
pub open spec fn digit(c: char) -> bool {
    '0' <= c <= '9'
}

/// A hexadecimal digit, in either case.
pub open spec fn hex_digit(c: char) -> bool {
    digit(c) || 'a' <= c <= 'f' || 'A' <= c <= 'F'
}

/// An ASCII letter.
pub open spec fn letter(c: char) -> bool {
    'a' <= c <= 'z' || 'A' <= c <= 'Z'
}

/// A character that opens a numeric literal: a digit or the decimal point.
pub open spec fn number_start(c: char) -> bool {
    digit(c) || c == '.'
}

/// A character that continues a numeric literal: the decimal point or a
/// hexadecimal digit.
pub open spec fn number_char(c: char) -> bool {
    c == '.' || hex_digit(c)
}

/// A character that continues an identifier or keyword: an ASCII letter, a
/// digit or the underscore.
pub open spec fn word_char(c: char) -> bool {
    c == '_' || letter(c) || digit(c)
}

/// A symbol that is always a token by itself.
pub open spec fn plain_symbol(c: char) -> bool {
    c == '/' || c == '*' || c == '(' || c == ')' || c == '[' || c == ']' || c == '{' || c == '}'
        || c == ',' || c == ';' || c == '%'
}

/// A symbol that joins with a directly following `=` into one operator.
pub open spec fn compound_symbol(c: char) -> bool {
    c == '>' || c == '<' || c == '=' || c == '!' || c == '+' || c == '-'
}

/// The character that opens a comment.
pub open spec fn comment_start(c: char) -> bool {
    c == '#'
}

pub fn is_whitespace(c: char) -> (r: bool)
    ensures
        r == whitespace(c),
{
    c == ' ' || c == '\t' || c == '\n' || c == '\x0C' || c == '\r'
}

pub fn is_digit(c: char) -> (r: bool)
    ensures
        r == digit(c),
{
    '0' <= c && c <= '9'
}

pub fn is_hex_digit(c: char) -> (r: bool)
    ensures
        r == hex_digit(c),
{
    is_digit(c) || ('a' <= c && c <= 'f') || ('A' <= c && c <= 'F')
}

pub fn is_letter(c: char) -> (r: bool)
    ensures
        r == letter(c),
{
    ('a' <= c && c <= 'z') || ('A' <= c && c <= 'Z')
}

pub fn is_number_start(c: char) -> (r: bool)
    ensures
        r == number_start(c),
{
    is_digit(c) || c == '.'
}

pub fn is_number_char(c: char) -> (r: bool)
    ensures
        r == number_char(c),
{
    c == '.' || is_hex_digit(c)
}

pub fn is_word_char(c: char) -> (r: bool)
    ensures
        r == word_char(c),
{
    c == '_' || is_letter(c) || is_digit(c)
}

pub fn is_plain_symbol(c: char) -> (r: bool)
    ensures
        r == plain_symbol(c),
{
    c == '/' || c == '*' || c == '(' || c == ')' || c == '[' || c == ']' || c == '{' || c == '}'
        || c == ',' || c == ';' || c == '%'
}

pub fn is_compound_symbol(c: char) -> (r: bool)
    ensures
        r == compound_symbol(c),
{
    c == '>' || c == '<' || c == '=' || c == '!' || c == '+' || c == '-'
}

} // verus!
