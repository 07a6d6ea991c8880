//! Laws of the token stream.
//!
//! Two hold of every source text. The tokens are the text: joined in order,
//! their lexemes are the source without its whitespace and comments. And
//! spacing is idle: whitespace within a line, put between two tokens or
//! taken from there, changes no token.

use vstd::prelude::*;
use crate::chars::{
    comment_start, compound_symbol, letter, number_char, number_start, spacing, whitespace,
    word_char,
};
use crate::scan::{
    classify, comment_end, lemma_comment_end, lemma_lexeme_end, lemma_number_end, lemma_skip_end,
    lemma_word_end, lexeme_end, number_end, run, scan, skip_end, start, word_end, Cursor,
};
use crate::error::{LexErrorKind, LexErrorView};
use crate::token::{lemma_word_lexeme, lexeme, lexemes, TokenView};

verus! {

/// The tokens of `s` from the offset `pos` on, up to the end of the text or
/// the first lexeme that is no token.
pub open spec fn tokens_from(s: Seq<char>, pos: int) -> Seq<TokenView>
    decreases s.len() - pos,
    via tokens_from_decreases
{
    let begin = skip_end(s, pos);
    if pos < 0 || begin >= s.len() {
        Seq::empty()
    } else {
        match classify(s.subrange(begin, lexeme_end(s, begin))) {
            Ok(token) => seq![token] + tokens_from(s, lexeme_end(s, begin)),
            Err(_) => Seq::empty(),
        }
    }
}

/// The lexeme behind the whitespace skip from `pos` ends behind `pos`.
proof fn lemma_step_forward(s: Seq<char>, pos: int)
    requires
        0 <= pos,
        skip_end(s, pos) < s.len(),
    ensures
        pos <= skip_end(s, pos) < lexeme_end(s, skip_end(s, pos)) <= s.len(),
{
    lemma_skip_end(s, pos);
    lemma_lexeme_end(s, skip_end(s, pos));
}

#[via_fn]
proof fn tokens_from_decreases(s: Seq<char>, pos: int) {
    if 0 <= pos && skip_end(s, pos) < s.len() {
        lemma_step_forward(s, pos);
    }
}

/// Where the tokens of `s` from `pos` on stop: at the start of the first
/// lexeme that is no token, or at the end of the text.
pub open spec fn stop_from(s: Seq<char>, pos: int) -> int
    decreases s.len() - pos,
    via stop_from_decreases
{
    let begin = skip_end(s, pos);
    if pos < 0 || begin >= s.len() {
        begin
    } else {
        match classify(s.subrange(begin, lexeme_end(s, begin))) {
            Ok(_) => stop_from(s, lexeme_end(s, begin)),
            Err(_) => begin,
        }
    }
}

#[via_fn]
proof fn stop_from_decreases(s: Seq<char>, pos: int) {
    if 0 <= pos && skip_end(s, pos) < s.len() {
        lemma_step_forward(s, pos);
    }
}

/// Why the tokens of `s` from `pos` on stop, where they stop at a lexeme
/// that is no token, and `None` where they stop at the end of the text.
pub open spec fn failure_from(s: Seq<char>, pos: int) -> Option<LexErrorKind>
    decreases s.len() - pos,
    via failure_from_decreases
{
    let begin = skip_end(s, pos);
    if pos < 0 || begin >= s.len() {
        None
    } else {
        match classify(s.subrange(begin, lexeme_end(s, begin))) {
            Ok(_) => failure_from(s, lexeme_end(s, begin)),
            Err(kind) => Some(kind),
        }
    }
}

#[via_fn]
proof fn failure_from_decreases(s: Seq<char>, pos: int) {
    if 0 <= pos && skip_end(s, pos) < s.len() {
        lemma_step_forward(s, pos);
    }
}

/// No lexeme is classified as the end of the input.
proof fn lemma_classify_not_end(text: Seq<char>)
    ensures
        classify(text) != Ok::<TokenView, LexErrorKind>(TokenView::EOF),
{
}

/// The tokens that a run gives depend on the cursor's offset alone, and the
/// run comes to rest at the end of the text or, where it fails, behind the
/// lexeme at which the tokens stop.
pub proof fn lemma_run_by_offset(s: Seq<char>, c: Cursor)
    requires
        !c.halted,
        c.pos <= s.len(),
    ensures
        run(s, c).tokens == tokens_from(s, c.pos as int),
        run(s, c).failure is None ==> failure_from(s, c.pos as int) is None && stop_from(
            s,
            c.pos as int,
        ) == s.len(),
        run(s, c).failure matches Some(e) ==> {
            &&& failure_from(s, c.pos as int) matches Some(kind)
            &&& e.error == kind.text()
            &&& e.start_index <= e.index
            &&& stop_from(s, c.pos as int) == run(s, c).cursor.pos - (e.index - e.start_index)
        },
    decreases s.len() - c.pos,
{
    let begin = skip_end(s, c.pos as int);
    lemma_skip_end(s, c.pos as int);
    if begin < s.len() {
        lemma_lexeme_end(s, begin);
        let end = lexeme_end(s, begin);
        lemma_classify_not_end(s.subrange(begin, end));
        if classify(s.subrange(begin, end)) is Ok {
            lemma_run_by_offset(s, scan(s, c).cursor);
        }
    }
}

/// The comment that opens at `j` reaches the offset `i`: a `#` stands at
/// `j`, and no newline stands from there up to `i`.
pub open spec fn comment_reaches(s: Seq<char>, j: int, i: int) -> bool {
    &&& 0 <= j <= i
    &&& s[j] == '#'
    &&& forall|k: int| j <= k < i ==> #[trigger] s[k] != '\n'
}

/// The character at `i` lies in a comment: between a `#` and the next
/// newline, both included.
pub open spec fn commented(s: Seq<char>, i: int) -> bool {
    exists|j: int| comment_reaches(s, j, i)
}

/// The character at `i` is lexical content: neither whitespace nor in a
/// comment.
pub open spec fn kept(s: Seq<char>, i: int) -> bool {
    !whitespace(s[i]) && !commented(s, i)
}

/// The lexical content of `s` between the offsets `from` and `to`: its
/// characters there, in order, without whitespace and comments.
pub open spec fn content_between(s: Seq<char>, from: int, to: int) -> Seq<char>
    decreases to - from,
{
    if from >= to {
        Seq::empty()
    } else if kept(s, from) {
        seq![s[from]] + content_between(s, from + 1, to)
    } else {
        content_between(s, from + 1, to)
    }
}

/// The lexical content of `s`: the text without whitespace and comments.
pub open spec fn content(s: Seq<char>) -> Seq<char> {
    content_between(s, 0, s.len() as int)
}

/// Content is taken piece by piece.
proof fn lemma_content_split(s: Seq<char>, a: int, b: int, c: int)
    requires
        a <= b <= c,
    ensures
        content_between(s, a, c) == content_between(s, a, b) + content_between(s, b, c),
    decreases b - a,
{
    if a < b {
        lemma_content_split(s, a + 1, b, c);
        if kept(s, a) {
            assert(seq![s[a]] + (content_between(s, a + 1, b) + content_between(s, b, c)) == (
            seq![s[a]] + content_between(s, a + 1, b)) + content_between(s, b, c));
        }
    } else {
        assert(Seq::<char>::empty() + content_between(s, b, c) == content_between(s, b, c));
    }
}

/// Where nothing is kept there is no content.
proof fn lemma_content_none(s: Seq<char>, a: int, b: int)
    requires
        forall|i: int| a <= i < b ==> !kept(s, i),
    ensures
        content_between(s, a, b) == Seq::<char>::empty(),
    decreases b - a,
{
    if a < b {
        lemma_content_none(s, a + 1, b);
    }
}

/// Where everything is kept the content is the text.
proof fn lemma_content_all(s: Seq<char>, a: int, b: int)
    requires
        0 <= a <= b <= s.len(),
        forall|i: int| a <= i < b ==> kept(s, i),
    ensures
        content_between(s, a, b) == s.subrange(a, b),
    decreases b - a,
{
    if a < b {
        lemma_content_all(s, a + 1, b);
        assert(seq![s[a]] + s.subrange(a + 1, b) == s.subrange(a, b));
    }
}

/// The lexemes of a token followed by more tokens.
proof fn lemma_lexemes_cons(token: TokenView, rest: Seq<TokenView>)
    ensures
        lexemes(seq![token] + rest) == lexeme(token) + lexemes(rest),
{
    let all = seq![token] + rest;
    assert(all.subrange(1, all.len() as int) == rest);
}

/// A lexeme that is a token and no comment is made of characters that are
/// neither whitespace nor the comment sign, and is the text of its token.
proof fn lemma_token_text(s: Seq<char>, begin: int)
    requires
        0 <= begin < s.len(),
        !comment_start(s[begin]),
        classify(s.subrange(begin, lexeme_end(s, begin))) is Ok,
    ensures
        forall|i: int|
            begin <= i < lexeme_end(s, begin) ==> !whitespace(#[trigger] s[i]) && s[i] != '#',
        lexeme(classify(s.subrange(begin, lexeme_end(s, begin)))->Ok_0) == s.subrange(
            begin,
            lexeme_end(s, begin),
        ),
{
    let end = lexeme_end(s, begin);
    let text = s.subrange(begin, end);
    lemma_lexeme_end(s, begin);
    lemma_number_end(s, begin + 1);
    lemma_word_end(s, begin + 1);
    assert(text[0] == s[begin]);
    lemma_word_lexeme(text);
}

/// From an offset that no comment reaches, the lexemes of the tokens are
/// the lexical content up to where the tokens stop.
proof fn lemma_lexemes_from(s: Seq<char>, pos: int)
    requires
        0 <= pos <= s.len(),
        forall|j: int| 0 <= j < pos ==> !comment_reaches(s, j, pos),
    ensures
        pos <= stop_from(s, pos) <= s.len(),
        lexemes(tokens_from(s, pos)) == content_between(s, pos, stop_from(s, pos)),
    decreases s.len() - pos,
{
    let begin = skip_end(s, pos);
    lemma_skip_end(s, pos);
    lemma_content_none(s, pos, begin);
    if begin >= s.len() {
    } else {
        lemma_lexeme_end(s, begin);
        let end = lexeme_end(s, begin);
        let text = s.subrange(begin, end);
        assert(text[0] == s[begin]);
        match classify(text) {
            Err(_) => {},
            Ok(token) => {
                let stop = stop_from(s, end);
                // what lies behind the lexeme
                if end == s.len() {
                    assert(skip_end(s, end) == end);
                } else {
                    assert forall|j: int| 0 <= j < end implies !comment_reaches(s, j, end) by {
                        if comment_reaches(s, j, end) {
                            if j < pos {
                                assert(comment_reaches(s, j, pos));
                            } else if j < begin {
                                assert(whitespace(s[j]));
                            } else if comment_start(s[begin]) {
                                lemma_comment_end(s, begin + 1);
                                assert(s[end - 1] == '\n');
                            } else {
                                lemma_token_text(s, begin);
                            }
                        }
                    }
                    lemma_lexemes_from(s, end);
                }
                lemma_lexemes_cons(token, tokens_from(s, end));
                // the lexeme itself
                if comment_start(s[begin]) {
                    lemma_comment_end(s, begin + 1);
                    assert forall|i: int| begin <= i < end implies !kept(s, i) by {
                        assert(comment_reaches(s, begin, i));
                    }
                    lemma_content_none(s, begin, end);
                } else {
                    lemma_token_text(s, begin);
                    assert forall|i: int| begin <= i < end implies kept(s, i) by {
                        if commented(s, i) {
                            let j = choose|j: int| comment_reaches(s, j, i);
                            if j < pos {
                                assert(comment_reaches(s, j, pos));
                            } else if j < begin {
                                assert(whitespace(s[j]));
                            }
                        }
                    }
                    lemma_content_all(s, begin, end);
                }
                lemma_content_split(s, pos, begin, stop);
                lemma_content_split(s, begin, end, stop);
                assert(Seq::<char>::empty() + content_between(s, begin, stop) == content_between(
                    s,
                    begin,
                    stop,
                ));
            },
        }
    }
}

/// **The tokens are the text.** Whatever the source text `s`, the lexemes
/// of the tokens that scanning it from the start gives, joined in order,
/// are the lexical content of `s` up to where scanning stops: that of the
/// whole text where scanning reaches its end, and that of the text before
/// the faulty lexeme where it fails.
pub proof fn lemma_order_preservation(s: Seq<char>)
    ensures
        run(s, start()).failure is None ==> lexemes(run(s, start()).tokens) == content(s),
        run(s, start()).failure matches Some(e) ==> lexemes(run(s, start()).tokens)
            == content_between(s, 0, run(s, start()).cursor.pos - (e.index - e.start_index)),
{
    lemma_run_by_offset(s, start());
    lemma_lexemes_from(s, 0);
}

/// The whitespace skip from `pos` ends at `e` where spacing leads up to `e`
/// and either a newline stands right before `e`, or no whitespace stands at
/// `e`.
proof fn lemma_skip_end_at(s: Seq<char>, pos: int, e: int)
    requires
        0 <= pos <= e <= s.len(),
        forall|i: int| pos <= i < e - 1 ==> spacing(#[trigger] s[i]),
        (pos < e && s[e - 1] == '\n') || ((pos == e || spacing(s[e - 1])) && (e == s.len()
            || !whitespace(s[e]))),
    ensures
        skip_end(s, pos) == e,
    decreases e - pos,
{
    if pos < e && s[pos] != '\n' {
        lemma_skip_end_at(s, pos + 1, e);
    }
}

/// A comment that continues at `i` ends at `e` where no newline stands
/// before `e - 1`, and either a newline stands there or the text ends at
/// `e`.
proof fn lemma_comment_end_at(s: Seq<char>, i: int, e: int)
    requires
        0 <= i <= e <= s.len(),
        forall|j: int| i <= j < e - 1 ==> #[trigger] s[j] != '\n',
        (i < e && s[e - 1] == '\n') || (e == s.len() && (i == e || s[e - 1] != '\n')),
    ensures
        comment_end(s, i) == e,
    decreases e - i,
{
    if i < e && s[i] != '\n' {
        lemma_comment_end_at(s, i + 1, e);
    }
}

/// A run of numeric-literal characters from `i` ends at `e` where such
/// characters lead up to `e` and none stands at `e`.
proof fn lemma_number_end_at(s: Seq<char>, i: int, e: int)
    requires
        0 <= i <= e <= s.len(),
        forall|j: int| i <= j < e ==> number_char(#[trigger] s[j]),
        e == s.len() || !number_char(s[e]),
    ensures
        number_end(s, i) == e,
    decreases e - i,
{
    if i < e {
        lemma_number_end_at(s, i + 1, e);
    }
}

/// A run of word characters from `i` ends at `e` where such characters lead
/// up to `e` and none stands at `e`.
proof fn lemma_word_end_at(s: Seq<char>, i: int, e: int)
    requires
        0 <= i <= e <= s.len(),
        forall|j: int| i <= j < e ==> word_char(#[trigger] s[j]),
        e == s.len() || !word_char(s[e]),
    ensures
        word_end(s, i) == e,
    decreases e - i,
{
    if i < e {
        lemma_word_end_at(s, i + 1, e);
    }
}

/// A lexeme of `a` is a lexeme of `b`, moved by `d`, where `b` holds the
/// characters of `a` from the start of the lexeme up to an offset `m` at
/// or behind its end, and, if the lexeme ends at `m`, either both texts end
/// there, or `b` goes on with spacing and the lexeme is no comment that
/// lacks its newline.
proof fn lemma_same_lexeme(a: Seq<char>, begin: int, b: Seq<char>, d: int, m: int)
    requires
        0 <= begin < a.len(),
        0 <= begin + d,
        lexeme_end(a, begin) <= m <= a.len(),
        m + d <= b.len(),
        forall|i: int| begin <= i < m ==> b[i + d] == #[trigger] a[i],
        m < a.len() || m + d < b.len() ==> m + d < b.len() && (lexeme_end(a, begin) < m
            || (spacing(b[m + d]) && !(comment_start(a[begin]) && a[m - 1] != '\n'))),
    ensures
        lexeme_end(b, begin + d) == lexeme_end(a, begin) + d,
        b.subrange(begin + d, lexeme_end(a, begin) + d) == a.subrange(
            begin,
            lexeme_end(a, begin),
        ),
{
    let end = lexeme_end(a, begin);
    let c = a[begin];
    lemma_lexeme_end(a, begin);
    assert(b[begin + d] == c);
    if compound_symbol(c) {
        if begin + 1 < m {
            assert(b[begin + 1 + d] == a[begin + 1]);
        }
    } else if comment_start(c) {
        lemma_comment_end(a, begin + 1);
        assert forall|j: int| begin + 1 + d <= j < end + d - 1 implies #[trigger] b[j]
            != '\n' by {
            assert(b[j] == a[j - d]);
        }
        if begin + 1 < end {
            assert(b[end - 1 + d] == a[end - 1]);
        }
        lemma_comment_end_at(b, begin + 1 + d, end + d);
    } else if number_start(c) {
        lemma_number_end(a, begin + 1);
        assert forall|j: int| begin + 1 + d <= j < end + d implies number_char(
            #[trigger] b[j],
        ) by {
            assert(b[j] == a[j - d]);
        }
        if end < m {
            assert(b[end + d] == a[end]);
        }
        lemma_number_end_at(b, begin + 1 + d, end + d);
    } else if letter(c) {
        lemma_word_end(a, begin + 1);
        assert forall|j: int| begin + 1 + d <= j < end + d implies word_char(#[trigger] b[j]) by {
            assert(b[j] == a[j - d]);
        }
        if end < m {
            assert(b[end + d] == a[end]);
        }
        lemma_word_end_at(b, begin + 1 + d, end + d);
    }
    assert forall|i: int| 0 <= i < end - begin implies b.subrange(begin + d, end + d)[i]
        == a.subrange(begin, end)[i] by {
        assert(b[begin + i + d] == a[begin + i]);
    }
    assert(b.subrange(begin + d, end + d) =~= a.subrange(begin, end));
}

/// The tokens from an offset on depend on the text from that offset on
/// alone.
proof fn lemma_tokens_shift(a: Seq<char>, from_a: int, b: Seq<char>, from_b: int)
    requires
        0 <= from_a <= a.len(),
        0 <= from_b <= b.len(),
        a.len() - from_a == b.len() - from_b,
        forall|i: int| from_a <= i < a.len() ==> b[i + from_b - from_a] == #[trigger] a[i],
    ensures
        tokens_from(a, from_a) == tokens_from(b, from_b),
        failure_from(a, from_a) == failure_from(b, from_b),
    decreases a.len() - from_a,
{
    let d = from_b - from_a;
    let begin = skip_end(a, from_a);
    lemma_skip_end(a, from_a);
    assert forall|i: int| from_b <= i < begin + d - 1 implies spacing(#[trigger] b[i]) by {
        assert(b[i] == a[i - d]);
    }
    if from_a < begin {
        assert(b[begin - 1 + d] == a[begin - 1]);
    }
    if begin < a.len() {
        assert(b[begin + d] == a[begin]);
    }
    lemma_skip_end_at(b, from_b, begin + d);
    if begin < a.len() {
        let end = lexeme_end(a, begin);
        lemma_lexeme_end(a, begin);
        lemma_same_lexeme(a, begin, b, d, a.len() as int);
        if classify(a.subrange(begin, end)) is Ok {
            lemma_tokens_shift(a, end, b, end + d);
        }
    }
}

/// The text `s` with `w` put in at the offset `p`.
pub open spec fn inserted(s: Seq<char>, p: int, w: Seq<char>) -> Seq<char> {
    s.subrange(0, p) + w + s.subrange(p, s.len() as int)
}

/// Scanning `s` from `pos` on, the offset `p` lies between two tokens, or
/// before the first or behind the last: the scanner, stepping from token to
/// token, comes to stand at a place from which only spacing leads up to `p`.
pub open spec fn between_tokens_from(s: Seq<char>, pos: int, p: int) -> bool
    decreases s.len() - pos,
    via between_tokens_from_decreases
{
    let begin = skip_end(s, pos);
    &&& 0 <= pos <= p <= s.len()
    &&& {
        ||| forall|i: int| pos <= i < p ==> spacing(#[trigger] s[i])
        ||| {
            &&& begin < s.len()
            &&& lexeme_end(s, begin) <= p
            &&& classify(s.subrange(begin, lexeme_end(s, begin))) is Ok
            &&& between_tokens_from(s, lexeme_end(s, begin), p)
        }
    }
}

#[via_fn]
proof fn between_tokens_from_decreases(s: Seq<char>, pos: int, p: int) {
    if 0 <= pos && skip_end(s, pos) < s.len() {
        lemma_step_forward(s, pos);
    }
}

/// The offset `p` lies between two tokens of `s`, or before the first or
/// behind the last.
pub open spec fn between_tokens(s: Seq<char>, p: int) -> bool {
    between_tokens_from(s, 0, p)
}

/// Spacing put in between two tokens changes no token from `pos` on.
proof fn lemma_spacing_from(s: Seq<char>, pos: int, p: int, w: Seq<char>)
    requires
        between_tokens_from(s, pos, p),
        forall|i: int| 0 <= i < w.len() ==> spacing(#[trigger] w[i]),
    ensures
        tokens_from(inserted(s, p, w), pos) == tokens_from(s, pos),
        failure_from(inserted(s, p, w), pos) == failure_from(s, pos),
    decreases s.len() - pos,
{
    let t = inserted(s, p, w);
    let n = w.len() as int;
    assert(t.len() == s.len() + n);
    assert forall|i: int| 0 <= i < p implies #[trigger] t[i] == s[i] by {}
    assert forall|i: int| p <= i < p + n implies #[trigger] t[i] == w[i - p] by {}
    assert forall|i: int| p <= i < s.len() implies t[i + n] == #[trigger] s[i] by {}
    if n == 0 {
        assert(t =~= s);
    } else if forall|i: int| pos <= i < p ==> spacing(#[trigger] s[i]) {
        let begin = skip_end(s, p);
        lemma_skip_end(s, p);
        lemma_skip_end_at(s, pos, begin);
        assert forall|i: int| pos <= i < begin + n - 1 implies spacing(#[trigger] t[i]) by {
            if i >= p + n {
                assert(t[i] == s[i - n]);
            } else if i >= p {
                assert(spacing(w[i - p]));
            }
        }
        if begin > p {
            assert(t[begin - 1 + n] == s[begin - 1]);
        } else {
            assert(spacing(w[n - 1]));
        }
        if begin < s.len() {
            assert(t[begin + n] == s[begin]);
        }
        lemma_skip_end_at(t, pos, begin + n);
        if begin < s.len() {
            let end = lexeme_end(s, begin);
            lemma_lexeme_end(s, begin);
            lemma_same_lexeme(s, begin, t, n, s.len() as int);
            if classify(s.subrange(begin, end)) is Ok {
                lemma_tokens_shift(s, end, t, end + n);
            }
        }
    } else {
        let begin = skip_end(s, pos);
        let end = lexeme_end(s, begin);
        lemma_skip_end(s, pos);
        lemma_lexeme_end(s, begin);
        lemma_skip_end_at(t, pos, begin);
        assert(spacing(w[0]));
        if comment_start(s[begin]) && s[end - 1] != '\n' && end == p {
            lemma_comment_end(s, begin + 1);
            assert forall|j: int| begin + 1 <= j < t.len() - 1 implies #[trigger] t[j] != '\n' by {
                if j >= p {
                    assert(spacing(w[j - p]));
                }
            }
            assert(spacing(w[n - 1]));
            lemma_comment_end_at(t, begin + 1, t.len() as int);
            assert(t.subrange(begin, t.len() as int)[0] == s[begin]);
            assert(s.subrange(begin, end)[0] == s[begin]);
            assert(tokens_from(t, t.len() as int) == Seq::<TokenView>::empty());
            assert(tokens_from(s, end) == Seq::<TokenView>::empty());
            assert(failure_from(t, t.len() as int) is None);
            assert(failure_from(s, end) is None);
        } else {
            lemma_same_lexeme(s, begin, t, 0, p);
            lemma_spacing_from(s, end, p, w);
        }
    }
}

/// **Spacing is idle.** Let `p` be an offset between two tokens of the
/// source text `s`, and `w` a run of spacing, such as spaces and tabs. Then
/// `s` and `s` with `w` put in at `p` scan to the same tokens, and end alike:
/// both at the end of the input, or both with a failure of the same kind.
/// Read from left to right this is the insertion of a run, and from right to
/// left its removal.
///
/// An offset right behind a newline that the whitespace skip consumed is
/// not between two tokens in this sense: the skip ends there, and spacing
/// put in there would be scanned as a lexeme.
pub proof fn lemma_spacing_is_idle(s: Seq<char>, p: int, w: Seq<char>)
    requires
        between_tokens(s, p),
        forall|i: int| 0 <= i < w.len() ==> spacing(#[trigger] w[i]),
    ensures
        run(inserted(s, p, w), start()).tokens == run(s, start()).tokens,
        run(inserted(s, p, w), start()).failure is None <==> run(s, start()).failure is None,
        run(s, start()).failure matches Some(e) ==> run(inserted(s, p, w), start()).failure
            matches Some(f) && f.error == e.error,
{
    lemma_run_by_offset(s, start());
    lemma_run_by_offset(inserted(s, p, w), start());
    lemma_spacing_from(s, 0, p, w);
}

/// **The end is final.** Once a step has given the end of the input or has
/// failed, every later step gives the end of the input and leaves the cursor
/// where it is.
pub proof fn lemma_end_is_final(s: Seq<char>, c: Cursor)
    requires
        c.pos <= s.len(),
        scan(s, c).outcome is Err || scan(s, c).outcome == Ok::<TokenView, LexErrorView>(
            TokenView::EOF,
        ),
    ensures
        scan(s, scan(s, c).cursor).outcome == Ok::<TokenView, LexErrorView>(TokenView::EOF),
        scan(s, scan(s, c).cursor).cursor == scan(s, c).cursor,
{
    let begin = skip_end(s, c.pos as int);
    lemma_skip_end(s, c.pos as int);
    if begin < s.len() {
        lemma_classify_not_end(s.subrange(begin, lexeme_end(s, begin)));
    }
}

/// **A token's text is source text.** The lexeme of a token that a step
/// gives is the very text that the step consumed last: the source from
/// where the lexeme began up to the cursor after the step. (A comment is
/// consumed too, and its token stands for no text.)
pub proof fn lemma_lexeme_in_source(s: Seq<char>, c: Cursor)
    requires
        c.pos <= s.len(),
    ensures
        scan(s, c).outcome matches Ok(token) ==> token != TokenView::Comment ==> {
            &&& lexeme(token).len() <= scan(s, c).cursor.pos
            &&& lexeme(token) == s.subrange(
                scan(s, c).cursor.pos - lexeme(token).len(),
                scan(s, c).cursor.pos as int,
            )
        },
{
    let begin = skip_end(s, c.pos as int);
    lemma_skip_end(s, c.pos as int);
    if !c.halted && begin < s.len() {
        let end = lexeme_end(s, begin);
        lemma_lexeme_end(s, begin);
        assert(s.subrange(begin, end)[0] == s[begin]);
        if classify(s.subrange(begin, end)) is Ok && !comment_start(s[begin]) {
            lemma_token_text(s, begin);
        }
    }
    assert(s.subrange(c.pos as int, c.pos as int) =~= Seq::<char>::empty());
    assert(s.subrange(begin, begin) =~= Seq::<char>::empty());
}

} // verus!
