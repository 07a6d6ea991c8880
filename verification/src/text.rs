//! Text as sequences of characters: copying, comparing and filling.

use vstd::prelude::*;
use vstd::string::*;

verus! {

/// `String::push` of the standard library: the string afterwards is the
/// string before with `c` appended as its last character. Trusted, not
/// proved.
pub assume_specification[ String::push ](text: &mut String, c: char)
    ensures
        final(text)@ == old(text)@.push(c),
;

/// `n` copies of the character `c`.
pub open spec fn repeat(c: char, n: nat) -> Seq<char> {
    Seq::new(n, |i: int| c)
}

/// Appends `n` copies of `c` to `text`.
pub(crate) fn push_repeated(text: &mut String, c: char, n: usize)
    ensures
        final(text)@ == old(text)@ + repeat(c, n as nat),
{
    let mut i: usize = 0;
    assert(text@ == old(text)@ + repeat(c, 0));
    while i < n
        invariant
            i <= n,
            text@ == old(text)@ + repeat(c, i as nat),
        decreases n - i,
    {
        text.push(c);
        i += 1;
        assert(text@ == old(text)@ + repeat(c, i as nat));
    }
}

/// A copy of the characters of `chars` from `start` up to `end`.
pub fn span_text(chars: &Vec<char>, start: usize, end: usize) -> (text: String)
    requires
        start <= end <= chars.len(),
    ensures
        text@ == chars@.subrange(start as int, end as int),
{
    let mut text = String::new();
    let mut i: usize = start;
    while i < end
        invariant
            start <= i <= end <= chars.len(),
            text@ == chars@.subrange(start as int, i as int),
        decreases end - i,
    {
        text.push(chars[i]);
        i += 1;
        assert(text@ == chars@.subrange(start as int, i as int));
    }
    text
}

/// Whether the characters of `chars` from `start` up to `end` spell `word`.
pub fn spells(chars: &Vec<char>, start: usize, end: usize, word: &str) -> (r: bool)
    requires
        start <= end <= chars.len(),
    ensures
        r == (chars@.subrange(start as int, end as int) == word@),
{
    let ghost span = chars@.subrange(start as int, end as int);
    let mut i: usize = start;
    for c in it: word.chars()
        invariant
            it.seq() == word@,
            span == chars@.subrange(start as int, end as int),
            start <= i <= end <= chars.len(),
            i - start == it.index(),
            forall|k: int| 0 <= k < it.index() ==> span[k] == #[trigger] word@[k],
    {
        if i >= end {
            assert(span.len() < word@.len());
            return false;
        }
        if chars[i] != c {
            assert(span[i - start] != word@[i - start]);
            return false;
        }
        i += 1;
    }
    if i < end {
        assert(span.len() > word@.len());
        return false;
    }
    assert(span =~= word@);
    true
}

} // verus!
