//! Texts: their bytes, their characters, and the white space around them.

use vstd::prelude::*;
use vstd::utf8::encode_utf8_decode_utf8;

verus! {

/// `String::push` appends one character.
pub assume_specification[ String::push ](text: &mut String, ch: char)
    ensures
        final(text)@ == old(text)@.push(ch),
;

/// Two texts with the same UTF-8 bytes are the same text.
pub proof fn lemma_same_bytes_same_text(a: Seq<char>, b: Seq<char>)
    requires
        vstd::utf8::encode_utf8(a) == vstd::utf8::encode_utf8(b),
    ensures
        a == b,
{
    encode_utf8_decode_utf8(a);
    encode_utf8_decode_utf8(b);
}

/// Whether two byte strings are equal, byte for byte.
pub fn same_bytes(a: &[u8], b: &[u8]) -> (same: bool)
    ensures
        same == (a@ == b@),
{
    if a.len() != b.len() {
        return false;
    }
    let mut i: usize = 0;
    while i < a.len()
        invariant
            a.len() == b.len(),
            i <= a.len(),
            forall|j: int| 0 <= j < i ==> a@[j] == b@[j],
        decreases a.len() - i,
    {
        if a[i] != b[i] {
            return false;
        }
        i = i + 1;
    }
    assert(a@ =~= b@);
    true
}

/// Whether two texts are equal, compared byte for byte with no normalisation.
pub fn same_text(a: &str, b: &str) -> (same: bool)
    ensures
        same == (a@ == b@),
{
    let same = same_bytes(a.as_bytes(), b.as_bytes());
    proof {
        if same {
            lemma_same_bytes_same_text(a@, b@);
        }
    }
    same
}

/// The characters of a text, in order.
pub fn chars_of(text: &str) -> (chars: Vec<char>)
    ensures
        chars@ == text@,
{
    broadcast use vstd::string::group_string_axioms;

    let mut chars: Vec<char> = Vec::new();
    for c in it: text.chars()
        invariant
            it.seq() == text@,
            chars@ == text@.take(it.index() as int),
    {
        assert(text@.take(it.index() + 1) =~= text@.take(it.index() as int).push(c));
        chars.push(c);
    }
    assert(text@.take(text@.len() as int) =~= text@);
    chars
}

/// What `char::is_whitespace` returns for a character: whether the character
/// has the Unicode property White_Space.
pub uninterp spec fn is_white_space(c: char) -> bool;

/// Calls `char::is_whitespace`, which tells whether a character has the
/// Unicode property White_Space.
#[verifier::external_body]
fn is_whitespace(c: char) -> (white: bool)
    ensures
        white == is_white_space(c),
{
    c.is_whitespace()
}

/// The number of white-space characters at the start of `text`.
pub open spec fn leading_white(text: Seq<char>) -> nat
    decreases text.len(),
{
    if text.len() > 0 && is_white_space(text[0]) {
        1 + leading_white(text.drop_first())
    } else {
        0
    }
}

/// The number of white-space characters at the end of `text`.
pub open spec fn trailing_white(text: Seq<char>) -> nat
    decreases text.len(),
{
    if text.len() > 0 && is_white_space(text.last()) {
        1 + trailing_white(text.drop_last())
    } else {
        0
    }
}

/// `text` without the white space at its start and at its end. A text of
/// white space only leaves nothing.
pub open spec fn trimmed(text: Seq<char>) -> Seq<char> {
    if leading_white(text) == text.len() {
        Seq::empty()
    } else {
        text.subrange(leading_white(text) as int, text.len() - trailing_white(text))
    }
}

/// `k` characters of white space followed by another character, or by the
/// end of the text, are the white space at its start.
pub proof fn lemma_leading_white_is(text: Seq<char>, k: int)
    requires
        0 <= k <= text.len(),
        forall|j: int| 0 <= j < k ==> is_white_space(#[trigger] text[j]),
        k < text.len() ==> !is_white_space(text[k]),
    ensures
        leading_white(text) == k,
    decreases k,
{
    if k > 0 {
        let rest = text.drop_first();
        assert forall|j: int| 0 <= j < k - 1 implies is_white_space(#[trigger] rest[j]) by {
            assert(rest[j] == text[j + 1]);
        }
        lemma_leading_white_is(rest, k - 1);
    }
}

/// `k` characters of white space that follow another character, or the
/// start of the text, are the white space at its end.
pub proof fn lemma_trailing_white_is(text: Seq<char>, k: int)
    requires
        0 <= k <= text.len(),
        forall|j: int| text.len() - k <= j < text.len() ==> is_white_space(#[trigger] text[j]),
        k < text.len() ==> !is_white_space(text[text.len() - k - 1]),
    ensures
        trailing_white(text) == k,
    decreases k,
{
    if k > 0 {
        let rest = text.drop_last();
        assert forall|j: int| rest.len() - (k - 1) <= j < rest.len() implies is_white_space(
            #[trigger] rest[j],
        ) by {
            assert(rest[j] == text[j]);
        }
        lemma_trailing_white_is(rest, k - 1);
    }
}

/// The number of white-space characters at the start of a text.
fn count_leading_white(chars: &Vec<char>) -> (k: usize)
    ensures
        k == leading_white(chars@),
        k <= chars.len(),
        k < chars.len() ==> !is_white_space(chars@[k as int]),
{
    let mut k: usize = 0;
    while k < chars.len()
        invariant
            k <= chars.len(),
            forall|j: int| 0 <= j < k ==> is_white_space(#[trigger] chars@[j]),
        decreases chars.len() - k,
    {
        if !is_whitespace(chars[k]) {
            proof {
                lemma_leading_white_is(chars@, k as int);
            }
            return k;
        }
        k = k + 1;
    }
    proof {
        lemma_leading_white_is(chars@, k as int);
    }
    k
}

/// The number of white-space characters at the end of a text.
fn count_trailing_white(chars: &Vec<char>) -> (k: usize)
    ensures
        k == trailing_white(chars@),
        k <= chars.len(),
        forall|j: int| chars.len() - k <= j < chars.len() ==> is_white_space(#[trigger] chars@[j]),
{
    let n: usize = chars.len();
    let mut k: usize = 0;
    while k < n
        invariant
            n == chars.len(),
            k <= n,
            forall|j: int| n - k <= j < n ==> is_white_space(#[trigger] chars@[j]),
        decreases n - k,
    {
        if !is_whitespace(chars[n - k - 1]) {
            proof {
                lemma_trailing_white_is(chars@, k as int);
            }
            return k;
        }
        k = k + 1;
    }
    proof {
        lemma_trailing_white_is(chars@, k as int);
    }
    k
}

/// A copy of a text without the white space at its start and at its end.
pub fn trim(text: &str) -> (inner: String)
    ensures
        inner@ == trimmed(text@),
{
    let chars = chars_of(text);
    let start: usize = count_leading_white(&chars);
    let mut inner = String::new();
    if start == chars.len() {
        return inner;
    }
    let end: usize = chars.len() - count_trailing_white(&chars);
    let mut i: usize = start;
    while i < end
        invariant
            start <= i <= end,
            end <= chars.len(),
            inner@ == chars@.subrange(start as int, i as int),
        decreases end - i,
    {
        assert(chars@.subrange(start as int, i + 1) =~= chars@.subrange(start as int, i as int).push(
            chars@[i as int],
        ));
        inner.push(chars[i]);
        i = i + 1;
    }
    inner
}

} // verus!
