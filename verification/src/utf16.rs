//! UTF-16 code-unit lengths of text.
//!
//! The relay platform addresses rich-text ranges and enforces its message
//! length limit in UTF-16 code units, so offsets and lengths throughout this
//! crate are measured in those units rather than in characters or bytes.

use vstd::prelude::*;

verus! {

/// Number of UTF-16 code units needed to encode one character: one for
/// characters of the basic multilingual plane, two (a surrogate pair) for the
/// rest.
pub open spec fn char_utf16_len(c: char) -> int {
    if (c as u32) < 0x10000 {
        1
    } else {
        2
    }
}

/// Number of UTF-16 code units needed to encode a character sequence.
pub open spec fn utf16_len(s: Seq<char>) -> int
    decreases s.len(),
{
    if s.len() == 0 {
        0
    } else {
        char_utf16_len(s[0]) + utf16_len(s.skip(1))
    }
}

pub proof fn lemma_utf16_len_bounds(s: Seq<char>)
    ensures
        s.len() <= utf16_len(s) <= 2 * s.len(),
    decreases s.len(),
{
    if s.len() > 0 {
        lemma_utf16_len_bounds(s.skip(1));
    }
}

pub proof fn lemma_utf16_len_concat(a: Seq<char>, b: Seq<char>)
    ensures
        utf16_len(a + b) == utf16_len(a) + utf16_len(b),
    decreases a.len(),
{
    if a.len() == 0 {
        assert(a + b =~= b);
    } else {
        assert((a + b).skip(1) =~= a.skip(1) + b);
        lemma_utf16_len_concat(a.skip(1), b);
    }
}

pub proof fn lemma_utf16_len_singleton(c: char)
    ensures
        utf16_len(seq![c]) == char_utf16_len(c),
{
    let s = seq![c];
    assert(s.skip(1) =~= Seq::<char>::empty());
    assert(utf16_len(s) == char_utf16_len(s[0]) + utf16_len(s.skip(1)));
}

/// Extending a prefix by one character adds that character's unit length.
pub proof fn lemma_utf16_len_take_succ(s: Seq<char>, i: int)
    requires
        0 <= i < s.len(),
    ensures
        utf16_len(s.take(i + 1)) == utf16_len(s.take(i)) + char_utf16_len(s[i]),
{
    assert(s.take(i + 1) =~= s.take(i) + seq![s[i]]);
    lemma_utf16_len_concat(s.take(i), seq![s[i]]);
    lemma_utf16_len_singleton(s[i]);
}

/// A sequence splits at any point into its prefix and suffix unit lengths.
pub proof fn lemma_utf16_len_split(s: Seq<char>, i: int)
    requires
        0 <= i <= s.len(),
    ensures
        utf16_len(s) == utf16_len(s.take(i)) + utf16_len(s.skip(i)),
{
    assert(s =~= s.take(i) + s.skip(i));
    lemma_utf16_len_concat(s.take(i), s.skip(i));
}

/// The characters of a string, in order, as a vector.
pub fn str_to_chars(s: &str) -> (cs: Vec<char>)
    ensures
        cs@ == s@,
{
    let n = s.unicode_len();
    let mut cs: Vec<char> = Vec::new();
    let mut i: usize = 0;
    while i < n
        invariant
            n == s@.len(),
            i <= n,
            cs@ == s@.take(i as int),
        decreases n - i,
    {
        let c = s.get_char(i);
        cs.push(c);
        assert(s@.take(i as int) + seq![s@[i as int]] =~= s@.take(i + 1 as int));
        i = i + 1;
    }
    assert(s@.take(n as int) =~= s@);
    cs
}

/// Character-for-character string equality.
pub fn str_eq(a: &str, b: &str) -> (r: bool)
    ensures
        r == (a@ == b@),
{
    let na = a.unicode_len();
    let nb = b.unicode_len();
    if na != nb {
        return false;
    }
    let mut i: usize = 0;
    while i < na
        invariant
            na == a@.len(),
            na == b@.len(),
            i <= na,
            forall|k: int| 0 <= k < i ==> a@[k] == b@[k],
        decreases na - i,
    {
        if a.get_char(i) != b.get_char(i) {
            return false;
        }
        i = i + 1;
    }
    proof {
        assert(a@ =~= b@);
    }
    true
}

/// Unit length of one character, as executable code.
pub fn char_unit_len(c: char) -> (n: usize)
    ensures
        n == char_utf16_len(c),
{
    if (c as u32) < 0x10000 {
        1
    } else {
        2
    }
}

/// UTF-16 unit length of a character vector. The count is kept in a `u128`
/// so that it cannot overflow for any sequence that fits in memory.
pub fn utf16_length(cs: &Vec<char>) -> (n: u128)
    ensures
        n == utf16_len(cs@),
{
    let mut n: u128 = 0;
    let mut i: usize = 0;
    proof {
        lemma_utf16_len_bounds(cs@);
    }
    while i < cs.len()
        invariant
            i <= cs@.len(),
            n == utf16_len(cs@.take(i as int)),
            n <= 2 * i,
            i <= usize::MAX,
        decreases cs@.len() - i,
    {
        proof {
            lemma_utf16_len_take_succ(cs@, i as int);
        }
        n = n + char_unit_len(cs[i]) as u128;
        i = i + 1;
    }
    assert(cs@.take(cs@.len() as int) =~= cs@);
    n
}

} // verus!
