//! Comparison and search of text, character by character.

use vstd::prelude::*;
use vstd::utf8::*;

verus! {

/// Whether two strings hold the same characters.
pub fn same_text(a: &str, b: &str) -> (same: bool)
    ensures
        same == (a@ == b@),
{
    let x = a.as_bytes();
    let y = b.as_bytes();
    proof {
        encode_utf8_decode_utf8(a@);
        encode_utf8_decode_utf8(b@);
    }
    if x.len() != y.len() {
        return false;
    }
    let mut i: usize = 0;
    while i < x.len()
        invariant
            i <= x.len(),
            x.len() == y.len(),
            x@ == encode_utf8(a@),
            y@ == encode_utf8(b@),
            forall|j: int| 0 <= j < i ==> x@[j] == y@[j],
        decreases x.len() - i,
    {
        if x[i] != y[i] {
            return false;
        }
        i += 1;
    }
    assert(x@ =~= y@);
    true
}

/// Whether `keyword` stands in `text` from the place `at` on.
pub open spec fn occurs_at(text: Seq<char>, keyword: Seq<char>, at: int) -> bool {
    &&& 0 <= at
    &&& at + keyword.len() <= text.len()
    &&& text.subrange(at, at + keyword.len()) == keyword
}

/// Whether `keyword` stands somewhere in `text`, character for character.
/// The empty keyword stands in every text.
pub open spec fn contains_text(text: Seq<char>, keyword: Seq<char>) -> bool {
    exists|at: int| occurs_at(text, keyword, at)
}

/// The characters of a string.
pub fn chars_of(text: &str) -> (chars: Vec<char>)
    ensures
        chars@ == text@,
{
    let mut chars: Vec<char> = Vec::new();
    for c in it: text.chars()
        invariant
            it.seq() == text@,
            chars@ == text@.take(it.index()),
    {
        proof {
            assert(text@.take(it.index() + 1) =~= text@.take(it.index()).push(c));
        }
        chars.push(c);
    }
    assert(text@.take(text@.len() as int) == text@);
    chars
}

/// Whether `keyword` stands in `text` from the place `at` on.
fn matches_at(text: &Vec<char>, keyword: &Vec<char>, at: usize) -> (found: bool)
    requires
        at + keyword@.len() <= text@.len(),
    ensures
        found == occurs_at(text@, keyword@, at as int),
{
    let length: usize = keyword.len();
    assert(text@.len() == text.len());
    let mut i: usize = 0;
    while i < length
        invariant
            i <= length == keyword@.len(),
            at + keyword@.len() <= text@.len() <= usize::MAX,
            forall|j: int| 0 <= j < i ==> text@[at + j] == keyword@[j],
        decreases keyword@.len() - i,
    {
        if text[at + i] != keyword[i] {
            assert(text@.subrange(at as int, at + keyword@.len())[i as int] != keyword@[i as int]);
            return false;
        }
        i += 1;
    }
    assert(text@.subrange(at as int, at + keyword@.len()) =~= keyword@);
    true
}

/// Whether `keyword` stands somewhere in `text`.
pub fn contains_chars(text: &Vec<char>, keyword: &Vec<char>) -> (found: bool)
    ensures
        found == contains_text(text@, keyword@),
{
    if keyword.len() > text.len() {
        return false;
    }
    let last: usize = text.len() - keyword.len();
    let mut at: usize = 0;
    loop
        invariant
            at <= last,
            last == text@.len() - keyword@.len(),
            forall|k: int| 0 <= k < at ==> !occurs_at(text@, keyword@, k),
        decreases last - at,
    {
        if matches_at(text, keyword, at) {
            return true;
        }
        if at == last {
            return false;
        }
        at += 1;
    }
}

/// Whether `keyword` stands somewhere in `text`, character for character.
pub fn text_contains(text: &str, keyword: &str) -> (found: bool)
    ensures
        found == contains_text(text@, keyword@),
{
    let text_chars = chars_of(text);
    let keyword_chars = chars_of(keyword);
    contains_chars(&text_chars, &keyword_chars)
}

} // verus!
