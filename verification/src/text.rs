//! Character classification and conversions between `String` and `Vec<char>`.

use vstd::prelude::*;

verus! {

/// The Unicode `White_Space` property, which is what `char::is_whitespace` tests.
pub open spec fn is_ws(c: char) -> bool {
    ||| ('\u{9}' <= c && c <= '\u{d}')
    ||| c == ' '
    ||| c == '\u{85}'
    ||| c == '\u{a0}'
    ||| c == '\u{1680}'
    ||| ('\u{2000}' <= c && c <= '\u{200a}')
    ||| c == '\u{2028}'
    ||| c == '\u{2029}'
    ||| c == '\u{202f}'
    ||| c == '\u{205f}'
    ||| c == '\u{3000}'
}

/// Returns whether `c` is a whitespace character.
pub fn is_whitespace_char(c: char) -> (b: bool)
    ensures
        b == is_ws(c),
{
    ('\u{9}' <= c && c <= '\u{d}') || c == ' ' || c == '\u{85}' || c == '\u{a0}' || c
        == '\u{1680}' || ('\u{2000}' <= c && c <= '\u{200a}') || c == '\u{2028}' || c
        == '\u{2029}' || c == '\u{202f}' || c == '\u{205f}' || c == '\u{3000}'
}

/// ASCII decimal digit.
pub open spec fn is_digit(c: char) -> bool {
    '0' <= c && c <= '9'
}

/// Returns whether `c` is an ASCII decimal digit.
pub fn is_ascii_digit_char(c: char) -> (b: bool)
    ensures
        b == is_digit(c),
{
    '0' <= c && c <= '9'
}

/// Whether every character of `s` is whitespace.
pub open spec fn all_ws(s: Seq<char>) -> bool {
    forall|i: int| 0 <= i < s.len() ==> is_ws(#[trigger] s[i])
}

/// Returns whether `s` is non-empty and consists of whitespace only.
pub fn is_nonempty_whitespace(s: &Vec<char>) -> (b: bool)
    ensures
        b == (s@.len() > 0 && all_ws(s@)),
{
    if s.len() == 0 {
        return false;
    }
    let mut i: usize = 0;
    while i < s.len()
        invariant
            i <= s@.len(),
            forall|j: int| 0 <= j < i ==> is_ws(#[trigger] s@[j]),
        decreases s@.len() - i,
    {
        if !is_whitespace_char(s[i]) {
            return false;
        }
        i = i + 1;
    }
    true
}

/// What `str::to_lowercase` gives for a text.
pub uninterp spec fn spec_to_lowercase(s: Seq<char>) -> Seq<char>;

/// What `char::to_lowercase` yields for a character.
pub uninterp spec fn spec_char_to_lowercase(c: char) -> Seq<char>;

/// A text lowercased character by character: each character replaced by what
/// `char::to_lowercase` yields for it.
pub open spec fn lower_chars(s: Seq<char>) -> Seq<char>
    decreases s.len(),
{
    if s.len() == 0 {
        seq![]
    } else {
        lower_chars(s.drop_last()) + spec_char_to_lowercase(s.last())
    }
}

/// Lowercasing character by character commutes with joining texts.
pub proof fn lemma_lower_chars_append(a: Seq<char>, b: Seq<char>)
    ensures
        lower_chars(a + b) == lower_chars(a) + lower_chars(b),
    decreases b.len(),
{
    if b.len() == 0 {
        assert(a + b =~= a);
        assert(lower_chars(a) + lower_chars(b) =~= lower_chars(a));
    } else {
        lemma_lower_chars_append(a, b.drop_last());
        assert((a + b).drop_last() =~= a + b.drop_last());
        assert((a + b).last() == b.last());
        assert(lower_chars(a) + lower_chars(b.drop_last()) + spec_char_to_lowercase(b.last())
            =~= lower_chars(a) + (lower_chars(b.drop_last()) + spec_char_to_lowercase(b.last())));
    }
}

/// What `char::to_uppercase` yields for a character.
pub uninterp spec fn spec_to_uppercase(c: char) -> Seq<char>;

/// Whether `char::is_alphabetic` holds of a character.
pub uninterp spec fn spec_is_alphabetic(c: char) -> bool;

/// Calls `str::to_lowercase`. The contract claims only that the result is a
/// function of the characters of the input; Unicode case mapping is not stated.
#[verifier::external_body]
pub(crate) fn to_lowercase(s: &str) -> (r: String)
    ensures
        r@ == spec_to_lowercase(s@),
{
    s.to_lowercase()
}

/// Calls `char::to_lowercase` and collects what it yields. The contract
/// claims that the result is a function of `c` and, as the std documentation
/// says, that it holds at least one character; Unicode case mapping is not
/// stated.
#[verifier::external_body]
pub(crate) fn char_to_lowercase(c: char) -> (r: Vec<char>)
    ensures
        r@ == spec_char_to_lowercase(c),
        r@.len() >= 1,
{
    c.to_lowercase().collect()
}

/// Calls `char::to_uppercase` and collects what it yields. The contract claims
/// that the result is a function of `c` and, as the std documentation says, that
/// it holds at least one character.
#[verifier::external_body]
pub(crate) fn to_uppercase(c: char) -> (r: Vec<char>)
    ensures
        r@ == spec_to_uppercase(c),
        r@.len() >= 1,
{
    c.to_uppercase().collect()
}

/// Calls `char::is_alphabetic`. The contract claims only that the answer is a
/// function of `c`.
#[verifier::external_body]
pub(crate) fn is_alphabetic(c: char) -> (b: bool)
    ensures
        b == spec_is_alphabetic(c),
{
    c.is_alphabetic()
}

/// Calls `String::push`, which appends the character to the end of the string.
#[verifier::external_body]
fn push_char(s: &mut String, c: char)
    ensures
        final(s)@ == old(s)@.push(c),
{
    s.push(c);
}

/// A `String` holding these characters, in order.
pub fn string_from_chars(v: &[char]) -> (s: String)
    ensures
        s@ == v@,
{
    let mut s = String::new();
    let mut i: usize = 0;
    while i < v.len()
        invariant
            i <= v@.len(),
            s@ == v@.take(i as int),
        decreases v@.len() - i,
    {
        push_char(&mut s, v[i]);
        i = i + 1;
        assert(s@ =~= v@.take(i as int));
    }
    assert(v@.take(v@.len() as int) =~= v@);
    s
}

/// The characters of a string slice, in order.
pub fn chars_of(s: &str) -> (v: Vec<char>)
    ensures
        v@ == s@,
{
    let n = s.unicode_len();
    let mut v: Vec<char> = Vec::new();
    let mut i: usize = 0;
    while i < n
        invariant
            n == s@.len(),
            i <= n,
            v@ == s@.take(i as int),
        decreases n - i,
    {
        let c = s.get_char(i);
        v.push(c);
        i = i + 1;
        assert(v@ =~= s@.take(i as int));
    }
    assert(v@ =~= s@);
    v
}

} // verus!
