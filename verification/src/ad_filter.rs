//! Detecting sponsored posts.
//!
//! A post counts as an ad when it carries the sponsor hashtag (in any case),
//! or an ad-disclosure marker (`erid`, in any case) that stands at a word
//! boundary, is followed by at least one separator (whitespace, `:` or `=`),
//! and then by an alphanumeric token of at least eight characters. The
//! boundary and the minimum token length keep the marker from matching inside
//! ordinary words.

use vstd::prelude::*;

use crate::utf16::str_to_chars;

verus! {

/// Case folding for the characters the ad signals use: ASCII and Cyrillic
/// capitals fold to their lowercase forms, everything else to itself.
pub open spec fn folded(c: char) -> int {
    let x = c as u32;
    if 0x41 <= x && x <= 0x5A {
        x + 0x20
    } else if 0x410 <= x && x <= 0x42F {
        x + 0x20
    } else {
        x as int
    }
}

/// `c` matches the (lowercase) pattern character `p` case-insensitively.
pub open spec fn folds_to(c: char, p: char) -> bool {
    folded(c) == p as u32
}

/// Whitespace, as the Unicode White_Space property defines it.
pub open spec fn is_space_char(c: char) -> bool {
    let x = c as u32;
    (0x09 <= x && x <= 0x0D) || x == 0x20 || x == 0x85 || x == 0xA0 || x == 0x1680 || (0x2000 <= x
        && x <= 0x200A) || x == 0x2028 || x == 0x2029 || x == 0x202F || x == 0x205F || x == 0x3000
}

/// A character that may precede the disclosure marker: whitespace or one of
/// the URL-delimiter characters.
pub open spec fn is_boundary_char(c: char) -> bool {
    let x = c as u32;
    is_space_char(c) || x == 0x2F || x == 0x5C || x == 0x3F || x == 0x26
}

/// A separator between the marker and its token: whitespace, `:` or `=`.
pub open spec fn is_separator_char(c: char) -> bool {
    let x = c as u32;
    is_space_char(c) || x == 0x3A || x == 0x3D
}

/// A token character: a letter `a`..`z` (either case) or a digit.
pub open spec fn is_token_char(c: char) -> bool {
    let x = c as u32;
    (0x61 <= folded(c) && folded(c) <= 0x7A) || (0x30 <= x && x <= 0x39)
}

/// The sponsor hashtag, lowercase.
pub open spec fn ad_hashtag() -> Seq<char> {
    seq!['#', 'р', 'е', 'к', 'л', 'а', 'м', 'а']
}

/// The ad-disclosure marker, lowercase.
pub open spec fn erid_marker() -> Seq<char> {
    seq!['e', 'r', 'i', 'd']
}

/// The sponsor hashtag stands at position `i`, case-insensitively.
pub open spec fn hashtag_match_at(s: Seq<char>, i: int) -> bool {
    &&& 0 <= i
    &&& i + 8 <= s.len()
    &&& forall|k: int| 0 <= k < 8 ==> folds_to(#[trigger] s[i + k], ad_hashtag()[k])
}

/// From position `p` on: a non-empty run of separators ending at `m`, then at
/// least eight token characters.
pub open spec fn erid_tail_at(s: Seq<char>, p: int, m: int) -> bool {
    &&& p < m
    &&& m + 8 <= s.len()
    &&& forall|k: int| p <= k < m ==> is_separator_char(#[trigger] s[k])
    &&& forall|k: int| m <= k < m + 8 ==> is_token_char(#[trigger] s[k])
}

/// The disclosure marker matches at position `i`: a word boundary before it,
/// the marker itself case-insensitively, separators, and a token.
pub open spec fn erid_match_at(s: Seq<char>, i: int) -> bool {
    &&& 0 <= i
    &&& i + 4 <= s.len()
    &&& i == 0 || is_boundary_char(s[i - 1])
    &&& forall|k: int| 0 <= k < 4 ==> folds_to(#[trigger] s[i + k], erid_marker()[k])
    &&& exists|m: int| #[trigger] erid_tail_at(s, i + 4, m)
}

/// The text carries either ad signal somewhere.
pub open spec fn spec_is_ad(s: Seq<char>) -> bool {
    (exists|i: int| #[trigger] hashtag_match_at(s, i)) || (exists|i: int|
        #[trigger] erid_match_at(s, i))
}

/// No character is both a separator and a token character.
proof fn lemma_separator_token_disjoint(c: char)
    ensures
        !(is_separator_char(c) && is_token_char(c)),
{
}

/// Case folding, as executable code.
pub fn folded_exec(c: char) -> (r: u32)
    ensures
        r == folded(c),
{
    let x = c as u32;
    if 0x41 <= x && x <= 0x5A {
        x + 0x20
    } else if 0x410 <= x && x <= 0x42F {
        x + 0x20
    } else {
        x
    }
}

pub fn is_space_exec(c: char) -> (r: bool)
    ensures
        r == is_space_char(c),
{
    let x = c as u32;
    (0x09 <= x && x <= 0x0D) || x == 0x20 || x == 0x85 || x == 0xA0 || x == 0x1680 || (0x2000 <= x
        && x <= 0x200A) || x == 0x2028 || x == 0x2029 || x == 0x202F || x == 0x205F || x == 0x3000
}

fn is_boundary_exec(c: char) -> (r: bool)
    ensures
        r == is_boundary_char(c),
{
    let x = c as u32;
    is_space_exec(c) || x == 0x2F || x == 0x5C || x == 0x3F || x == 0x26
}

fn is_separator_exec(c: char) -> (r: bool)
    ensures
        r == is_separator_char(c),
{
    let x = c as u32;
    is_space_exec(c) || x == 0x3A || x == 0x3D
}

fn is_token_exec(c: char) -> (r: bool)
    ensures
        r == is_token_char(c),
{
    let f = folded_exec(c);
    let x = c as u32;
    (0x61 <= f && f <= 0x7A) || (0x30 <= x && x <= 0x39)
}

/// The `k`-th character of the sponsor hashtag.
fn hashtag_char(k: usize) -> (c: char)
    requires
        k < 8,
    ensures
        c == ad_hashtag()[k as int],
{
    if k == 0 {
        '#'
    } else if k == 1 {
        'р'
    } else if k == 2 {
        'е'
    } else if k == 3 {
        'к'
    } else if k == 4 {
        'л'
    } else if k == 5 {
        'а'
    } else if k == 6 {
        'м'
    } else {
        'а'
    }
}

/// The `k`-th character of the disclosure marker.
fn erid_char(k: usize) -> (c: char)
    requires
        k < 4,
    ensures
        c == erid_marker()[k as int],
{
    if k == 0 {
        'e'
    } else if k == 1 {
        'r'
    } else if k == 2 {
        'i'
    } else {
        'd'
    }
}

fn check_hashtag_at(cs: &Vec<char>, i: usize) -> (r: bool)
    requires
        i <= cs@.len(),
    ensures
        r == hashtag_match_at(cs@, i as int),
{
    let len = cs.len();
    if len - i < 8 {
        return false;
    }
    let mut k: usize = 0;
    while k < 8
        invariant
            len == cs@.len(),
            i + 8 <= cs@.len(),
            k <= 8,
            forall|kk: int| 0 <= kk < k ==> folds_to(#[trigger] cs@[i + kk], ad_hashtag()[kk]),
        decreases 8 - k,
    {
        let pc = hashtag_char(k);
        if folded_exec(cs[i + k]) != pc as u32 {
            return false;
        }
        k = k + 1;
    }
    true
}

fn check_erid_at(cs: &Vec<char>, i: usize) -> (r: bool)
    requires
        i <= cs@.len(),
    ensures
        r == erid_match_at(cs@, i as int),
{
    let len = cs.len();
    if len - i < 4 {
        return false;
    }
    if i > 0 && !is_boundary_exec(cs[i - 1]) {
        return false;
    }
    let mut k: usize = 0;
    while k < 4
        invariant
            len == cs@.len(),
            i + 4 <= cs@.len(),
            k <= 4,
            forall|kk: int| 0 <= kk < k ==> folds_to(#[trigger] cs@[i + kk], erid_marker()[kk]),
        decreases 4 - k,
    {
        let pc = erid_char(k);
        if folded_exec(cs[i + k]) != pc as u32 {
            return false;
        }
        k = k + 1;
    }
    // scan the separator run
    let mut j = i + 4;
    while j < len && is_separator_exec(cs[j])
        invariant
            i + 4 <= j <= len,
            len == cs@.len(),
            forall|kk: int| i + 4 <= kk < j ==> is_separator_char(#[trigger] cs@[kk]),
        decreases len - j,
    {
        j = j + 1;
    }
    // `j` is now the first position after `i + 4` that is not a separator,
    // so any matching token must begin exactly there
    proof {
        assert forall|m: int| #[trigger] erid_tail_at(cs@, i + 4 as int, m) implies m == j by {
            lemma_separator_token_disjoint(cs@[m]);
            if m < j {
                assert(is_separator_char(cs@[m]));
                assert(is_token_char(cs@[m]));
            }
            if m > j {
                assert(j < cs@.len());
                assert(is_separator_char(cs@[j as int]));
            }
        }
    }
    if j == i + 4 {
        proof {
            if exists|m: int| #[trigger] erid_tail_at(cs@, i + 4 as int, m) {
                let m = choose|m: int| #[trigger] erid_tail_at(cs@, i + 4 as int, m);
                assert(m == j);
                assert(i + 4 < m);
            }
        }
        return false;
    }
    if len - j < 8 {
        proof {
            if exists|m: int| #[trigger] erid_tail_at(cs@, i + 4 as int, m) {
                let m = choose|m: int| #[trigger] erid_tail_at(cs@, i + 4 as int, m);
                assert(m == j);
            }
        }
        return false;
    }
    let mut k: usize = 0;
    while k < 8
        invariant
            i + 4 < j,
            j + 8 <= cs@.len(),
            len == cs@.len(),
            k <= 8,
            !is_separator_char(cs@[j as int]),
            forall|kk: int| i + 4 <= kk < j ==> is_separator_char(#[trigger] cs@[kk]),
            forall|kk: int| j <= kk < j + k ==> is_token_char(#[trigger] cs@[kk]),
        decreases 8 - k,
    {
        if !is_token_exec(cs[j + k]) {
            proof {
                if exists|m: int| #[trigger] erid_tail_at(cs@, i + 4 as int, m) {
                    let m = choose|m: int| #[trigger] erid_tail_at(cs@, i + 4 as int, m);
                    assert forall|mm: int| #[trigger] erid_tail_at(cs@, i + 4 as int, mm) implies mm == j by {
                        lemma_separator_token_disjoint(cs@[mm]);
                        if mm < j {
                            assert(is_separator_char(cs@[mm]));
                        }
                        if mm > j {
                            assert(is_separator_char(cs@[j as int]));
                        }
                    }
                    assert(m == j);
                    assert(is_token_char(cs@[j + k]));
                }
            }
            return false;
        }
        k = k + 1;
    }
    proof {
        assert(erid_tail_at(cs@, i + 4 as int, j as int));
    }
    true
}

/// Decide whether a post is sponsored content.
pub fn is_ad(text: &str) -> (r: bool)
    ensures
        r == spec_is_ad(text@),
{
    let cs = str_to_chars(text);
    let len = cs.len();
    let mut i: usize = 0;
    while i < len
        invariant
            cs@ == text@,
            len == cs@.len(),
            i <= len,
            forall|ii: int| 0 <= ii < i ==> !hashtag_match_at(cs@, ii),
            forall|ii: int| 0 <= ii < i ==> !erid_match_at(cs@, ii),
        decreases len - i,
    {
        if check_hashtag_at(&cs, i) {
            return true;
        }
        if check_erid_at(&cs, i) {
            return true;
        }
        i = i + 1;
    }
    proof {
        if spec_is_ad(text@) {
            if exists|ii: int| #[trigger] hashtag_match_at(text@, ii) {
                let ii = choose|ii: int| #[trigger] hashtag_match_at(text@, ii);
                assert(ii < len);
                assert(!hashtag_match_at(cs@, ii));
            }
            if exists|ii: int| #[trigger] erid_match_at(text@, ii) {
                let ii = choose|ii: int| #[trigger] erid_match_at(text@, ii);
                assert(ii < len);
                assert(!erid_match_at(cs@, ii));
            }
            assert(false);
        }
    }
    false
}

} // verus!
