//! Splitting oversized outbound text into chunks under the platform limit.
//!
//! The limit is measured in UTF-16 code units. A chunk boundary is placed at
//! the last position that fits, preferring the last newline in the second half
//! of the current window so lines are kept whole; boundaries always fall on
//! character boundaries, so concatenating the chunks reproduces the input
//! exactly.

use vstd::prelude::*;

use crate::utf16::{char_utf16_len, char_unit_len, str_to_chars, utf16_len, utf16_length};

verus! {

/// The hard per-message length limit of the relay platform, in UTF-16 code
/// units.
pub const TELEGRAM_MAX_LENGTH: usize = 4096;

/// The views of a vector of chunks, one character sequence per chunk.
pub open spec fn part_views(parts: Seq<String>) -> Seq<Seq<char>> {
    parts.map_values(|p: String| p@)
}

proof fn lemma_utf16_len_nonneg(s: Seq<char>)
    ensures
        utf16_len(s) >= 0,
{
    crate::utf16::lemma_utf16_len_bounds(s);
}

/// Unit length is additive over adjacent subranges.
proof fn lemma_units_adjacent(s: Seq<char>, a: int, b: int, c: int)
    requires
        0 <= a <= b <= c <= s.len(),
    ensures
        utf16_len(s.subrange(a, c)) == utf16_len(s.subrange(a, b)) + utf16_len(s.subrange(b, c)),
{
    assert(s.subrange(a, c) =~= s.subrange(a, b) + s.subrange(b, c));
    crate::utf16::lemma_utf16_len_concat(s.subrange(a, b), s.subrange(b, c));
}

/// Extending a subrange by one character adds that character's unit length.
proof fn lemma_units_subrange_succ(s: Seq<char>, a: int, j: int)
    requires
        0 <= a <= j < s.len(),
    ensures
        utf16_len(s.subrange(a, j + 1)) == utf16_len(s.subrange(a, j)) + char_utf16_len(s[j]),
{
    lemma_units_adjacent(s, a, j, j + 1);
    assert(s.subrange(j, j + 1) =~= seq![s[j]]);
    crate::utf16::lemma_utf16_len_singleton(s[j]);
}

/// Find the cut point for the next chunk when the remaining text exceeds the
/// limit: the last character that still fits, or one past the last newline in
/// the second half of the window. Returns the cut index (in characters) and
/// the chunk's length in UTF-16 units.
fn find_cut(cs: &Vec<char>, start: usize, max_len: usize) -> (r: (usize, usize))
    requires
        2 <= max_len,
        start < cs@.len(),
        utf16_len(cs@.skip(start as int)) > max_len as int,
    ensures
        start < r.0 <= cs@.len(),
        r.1 == utf16_len(cs@.subrange(start as int, r.0 as int)),
        max_len as int / 2 <= r.1 <= max_len as int,
{
    let len = cs.len();
    let mut j = start;
    let mut u: usize = 0;
    let mut has_nl = false;
    let mut nl: usize = 0;
    let mut nl_u: usize = 0;
    let mut cut: usize = 0;
    let mut cu: usize = 0;
    loop
        invariant_except_break
            2 <= max_len,
            len == cs@.len(),
            start <= j <= len,
            u == utf16_len(cs@.subrange(start as int, j as int)),
            u <= max_len,
            utf16_len(cs@.skip(start as int)) > max_len as int,
            has_nl ==> start <= nl && nl < j && cs@[nl as int] == '\n' && nl_u == utf16_len(
                cs@.subrange(start as int, nl as int),
            ) && nl_u >= max_len as int / 2 && nl_u + 1 <= u,
        ensures
            start < cut <= cs@.len(),
            cu == utf16_len(cs@.subrange(start as int, cut as int)),
            max_len as int / 2 <= cu <= max_len as int,
        decreases cs@.len() - j,
    {
        proof {
            if j == cs@.len() {
                assert(cs@.subrange(start as int, j as int) =~= cs@.skip(start as int));
                assert(false);
            }
        }
        let c = cs[j];
        let w = char_unit_len(c);
        if (u as u128) + (w as u128) > max_len as u128 {
            if has_nl {
                proof {
                    lemma_units_subrange_succ(cs@, start as int, nl as int);
                    // the chunk up to the newline is a prefix of what fits
                    lemma_units_adjacent(cs@, start as int, nl + 1, j as int);
                    lemma_utf16_len_nonneg(cs@.subrange(nl + 1, j as int));
                }
                cut = nl + 1;
                cu = nl_u + 1;
            } else {
                proof {
                    if j == start {
                        assert(cs@.subrange(start as int, start as int) =~= Seq::<char>::empty());
                    }
                }
                cut = j;
                cu = u;
            }
            break;
        }
        if c == '\n' && u >= max_len / 2 {
            has_nl = true;
            nl = j;
            nl_u = u;
        }
        proof {
            lemma_units_subrange_succ(cs@, start as int, j as int);
        }
        u = u + w;
        j = j + 1;
    }
    (cut, cu)
}

/// Split `text` into chunks of at most `max_len` UTF-16 code units whose
/// concatenation is exactly `text`. Text that already fits is returned as a
/// single chunk; otherwise every cut keeps at least half a window in the
/// chunk before it, and a cut is only made while the remaining text still
/// exceeds the limit.
pub fn split_message(text: &str, max_len: usize) -> (parts: Vec<String>)
    requires
        2 <= max_len,
    ensures
        parts@.len() >= 1,
        part_views(parts@).flatten() == text@,
        forall|i: int| 0 <= i < parts@.len() ==> utf16_len(parts@[i]@) <= max_len as int,
        forall|i: int|
            0 <= i < parts@.len() - 1 ==> utf16_len(parts@[i]@) >= max_len as int / 2,
        forall|i: int|
            0 <= i < parts@.len() - 1 ==> utf16_len(part_views(parts@).skip(i).flatten())
                > max_len as int,
        utf16_len(text@) <= max_len as int ==> parts@.len() == 1 && parts@[0]@ == text@,
        utf16_len(text@) > max_len as int ==> parts@.len() >= 2,
        forall|i: int|
            0 <= i < parts@.len() ==> (parts@[i]@.len() > 0 || utf16_len(text@)
                <= max_len as int),
{
    let cs = str_to_chars(text);
    let total = utf16_length(&cs);
    if total <= max_len as u128 {
        let mut single: Vec<String> = Vec::new();
        single.push(text.to_owned());
        proof {
            part_views(single@).lemma_flatten_one_element();
            assert(part_views(single@).first() == text@);
        }
        return single;
    }
    let n = cs.len();
    let mut parts: Vec<String> = Vec::new();
    let mut start: usize = 0;
    let mut rem: u128 = total;
    proof {
        assert(cs@.skip(0) =~= text@);
    }
    while rem > max_len as u128
        invariant
            2 <= max_len,
            cs@ == text@,
            n == cs@.len(),
            start <= n,
            rem == utf16_len(text@.skip(start as int)),
            rem > 0,
            part_views(parts@).flatten() == text@.take(start as int),
            utf16_len(text@) > max_len as int,
            parts@.len() == 0 ==> rem == utf16_len(text@),
            forall|i: int| 0 <= i < parts@.len() ==> utf16_len(parts@[i]@) <= max_len as int,
            forall|i: int|
                0 <= i < parts@.len() ==> utf16_len(parts@[i]@) >= max_len as int / 2,
            forall|i: int|
                0 <= i < parts@.len() ==> utf16_len(part_views(parts@).skip(i).flatten()) + rem
                    > max_len as int,
            forall|i: int| 0 <= i < parts@.len() ==> parts@[i]@.len() > 0,
        decreases rem,
    {
        proof {
            if start == n {
                assert(text@.skip(n as int) =~= Seq::<char>::empty());
                assert(false);
            }
        }
        let (cut, cu) = find_cut(&cs, start, max_len);
        let piece = text.substring_char(start, cut);
        let piece_str = piece.to_owned();
        let ghost old_parts = parts@;
        let ghost old_start = start as int;
        let ghost old_rem = rem;
        parts.push(piece_str);
        start = cut;
        rem = rem - cu as u128;
        proof {
            let pv_old = part_views(old_parts);
            let pv_new = part_views(parts@);
            assert(pv_new =~= pv_old.push(text@.subrange(old_start, cut as int)));
            pv_old.lemma_flatten_push(text@.subrange(old_start, cut as int));
            assert(pv_new.flatten() =~= text@.take(cut as int)) by {
                assert(text@.take(old_start) + text@.subrange(old_start, cut as int) =~= text@.take(
                    cut as int,
                ));
            }
            // remaining units after the cut
            assert(text@.skip(old_start) =~= text@.subrange(old_start, cut as int) + text@.skip(
                cut as int,
            ));
            crate::utf16::lemma_utf16_len_concat(
                text@.subrange(old_start, cut as int),
                text@.skip(cut as int),
            );
            lemma_utf16_len_nonneg(text@.skip(cut as int));
            // each earlier suffix keeps its total unit count
            assert forall|i: int| 0 <= i < parts@.len() implies utf16_len(
                pv_new.skip(i).flatten(),
            ) + rem > max_len as int by {
                if i < old_parts.len() {
                    assert(pv_new.skip(i) =~= pv_old.skip(i).push(
                        text@.subrange(old_start, cut as int),
                    ));
                    pv_old.skip(i).lemma_flatten_push(text@.subrange(old_start, cut as int));
                    crate::utf16::lemma_utf16_len_concat(
                        pv_old.skip(i).flatten(),
                        text@.subrange(old_start, cut as int),
                    );
                } else {
                    assert(pv_new.skip(i) =~= seq![text@.subrange(old_start, cut as int)]);
                    pv_new.skip(i).lemma_flatten_one_element();
                }
            }
            // the chunk itself is non-empty
            crate::utf16::lemma_utf16_len_bounds(text@.subrange(old_start, cut as int));
        }
    }
    proof {
        if start == n {
            assert(text@.skip(n as int) =~= Seq::<char>::empty());
            assert(false);
        }
    }
    let piece = text.substring_char(start, n);
    let piece_str = piece.to_owned();
    let ghost old_parts = parts@;
    let ghost old_start = start as int;
    parts.push(piece_str);
    proof {
        let pv_old = part_views(old_parts);
        let pv_new = part_views(parts@);
        let last = text@.subrange(old_start, n as int);
        assert(last =~= text@.skip(old_start));
        assert(pv_new =~= pv_old.push(last));
        pv_old.lemma_flatten_push(last);
        assert(pv_new.flatten() =~= text@) by {
            assert(text@.take(old_start) + text@.skip(old_start) =~= text@);
        }
        crate::utf16::lemma_utf16_len_bounds(last);
        // the suffix-exceeds clause for every non-final chunk
        assert forall|i: int| 0 <= i < parts@.len() - 1 implies utf16_len(
            pv_new.skip(i).flatten(),
        ) > max_len as int by {
            assert(pv_new.skip(i) =~= pv_old.skip(i).push(last));
            pv_old.skip(i).lemma_flatten_push(last);
            crate::utf16::lemma_utf16_len_concat(pv_old.skip(i).flatten(), last);
        }
        assert(parts@.len() >= 2);
    }
    parts
}

/// Split an outbound message so that every chunk fits the platform limit.
pub fn split_telegram_message(text: String) -> (parts: Vec<String>)
    ensures
        parts@.len() >= 1,
        part_views(parts@).flatten() == text@,
        forall|i: int|
            0 <= i < parts@.len() ==> utf16_len(parts@[i]@) <= TELEGRAM_MAX_LENGTH as int,
        utf16_len(text@) <= TELEGRAM_MAX_LENGTH as int ==> parts@.len() == 1 && parts@[0]@
            == text@,
        utf16_len(text@) > TELEGRAM_MAX_LENGTH as int ==> parts@.len() >= 2,
{
    split_message(text.as_str(), TELEGRAM_MAX_LENGTH)
}

/// Law: text that exceeds the limit by no more than half a window splits into
/// exactly two chunks. The premises are precisely what `split_message`
/// guarantees of its result.
pub proof fn lemma_split_in_two(chunks: Seq<Seq<char>>, text: Seq<char>, max_len: int)
    requires
        2 <= max_len,
        chunks.len() >= 1,
        chunks.flatten() == text,
        forall|i: int| 0 <= i < chunks.len() ==> utf16_len(#[trigger] chunks[i]) <= max_len,
        forall|i: int|
            0 <= i < chunks.len() - 1 ==> utf16_len(#[trigger] chunks[i]) >= max_len / 2,
        forall|i: int|
            0 <= i < chunks.len() - 1 ==> utf16_len(#[trigger] chunks.skip(i).flatten())
                > max_len,
        max_len < utf16_len(text) <= max_len + max_len / 2,
    ensures
        chunks.len() == 2,
{
    if chunks.len() == 1 {
        chunks.lemma_flatten_one_element();
        assert(utf16_len(text) <= max_len);
        assert(false);
    }
    if chunks.len() > 2 {
        // the first chunk holds at least half a window, and the suffix from
        // the second chunk on still exceeds a full window; together they
        // exceed the bound on the whole text
        assert(chunks =~= seq![chunks[0]] + chunks.skip(1));
        vstd::seq_lib::lemma_flatten_concat(seq![chunks[0]], chunks.skip(1));
        seq![chunks[0]].lemma_flatten_one_element();
        crate::utf16::lemma_utf16_len_concat(chunks[0], chunks.skip(1).flatten());
        assert(utf16_len(chunks[0]) >= max_len / 2);
        assert(utf16_len(chunks.skip(1).flatten()) > max_len);
        assert(utf16_len(text) > max_len / 2 + max_len);
        assert(false);
    }
}

} // verus!
