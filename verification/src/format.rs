//! Building the outbound relay text.
//!
//! The relay wraps the source text between a header line naming the channel
//! and a footer line linking back to the source post, and computes rich-text
//! ranges over the final composed text: the handle is bold, every source
//! range is shifted forward by the UTF-16 length of everything inserted
//! before the body, and the word "Source" links to the canonical deep link.

use vstd::prelude::*;

use crate::entities::{EntityKind, EntityKindView, RichRange};
use crate::utf16::{str_to_chars, utf16_len, utf16_length};

verus! {

/// The decimal digit character for `d`.
pub open spec fn digit_char(d: int) -> char {
    ((0x30 + d) as u32) as char
}

/// The decimal digits of a non-negative number, most significant first.
pub open spec fn dec_digits(n: int) -> Seq<char>
    decreases n,
{
    if n < 10 {
        seq![digit_char(n)]
    } else {
        dec_digits(n / 10).push(digit_char(n % 10))
    }
}

/// The usual decimal rendering of an integer: a minus sign before the digits
/// of the magnitude when negative.
pub open spec fn dec_int(n: int) -> Seq<char> {
    if n < 0 {
        seq!['-'] + dec_digits(-n)
    } else {
        dec_digits(n)
    }
}

/// One decimal digit as a string slice.
fn digit_str(d: u64) -> (r: &'static str)
    requires
        d < 10,
    ensures
        r@ == seq![digit_char(d as int)],
{
    proof {
        vstd::utf8::char_u32_cast('0', 0x30);
        vstd::utf8::char_u32_cast('1', 0x31);
        vstd::utf8::char_u32_cast('2', 0x32);
        vstd::utf8::char_u32_cast('3', 0x33);
        vstd::utf8::char_u32_cast('4', 0x34);
        vstd::utf8::char_u32_cast('5', 0x35);
        vstd::utf8::char_u32_cast('6', 0x36);
        vstd::utf8::char_u32_cast('7', 0x37);
        vstd::utf8::char_u32_cast('8', 0x38);
        vstd::utf8::char_u32_cast('9', 0x39);
        reveal_strlit("0");
        reveal_strlit("1");
        reveal_strlit("2");
        reveal_strlit("3");
        reveal_strlit("4");
        reveal_strlit("5");
        reveal_strlit("6");
        reveal_strlit("7");
        reveal_strlit("8");
        reveal_strlit("9");
    }
    if d == 0 {
        "0"
    } else if d == 1 {
        "1"
    } else if d == 2 {
        "2"
    } else if d == 3 {
        "3"
    } else if d == 4 {
        "4"
    } else if d == 5 {
        "5"
    } else if d == 6 {
        "6"
    } else if d == 7 {
        "7"
    } else if d == 8 {
        "8"
    } else {
        "9"
    }
}

/// Decimal rendering of an unsigned number.
pub fn u64_to_string(n: u64) -> (r: String)
    ensures
        r@ == dec_digits(n as int),
    decreases n,
{
    if n < 10 {
        digit_str(n).to_owned()
    } else {
        let mut s = u64_to_string(n / 10);
        s.append(digit_str(n % 10));
        proof {
            assert(s@ =~= dec_digits(n as int / 10) + seq![digit_char(n as int % 10)]);
            assert(dec_digits(n as int) =~= dec_digits(n as int / 10).push(
                digit_char(n as int % 10),
            ));
        }
        s
    }
}

/// Decimal rendering of a signed number.
pub fn i64_to_string(n: i64) -> (r: String)
    ensures
        r@ == dec_int(n as int),
{
    if n < 0 {
        let magnitude: u64 = (-(n + 1)) as u64 + 1;
        proof {
            assert(magnitude == -(n as int));
        }
        let mut s = String::new();
        s.append("-");
        let digits = u64_to_string(magnitude);
        s.append(digits.as_str());
        proof {
            reveal_strlit("-");
            assert(s@ =~= seq!['-'] + dec_digits(-(n as int)));
        }
        s
    } else {
        u64_to_string(n as u64)
    }
}

/// The header prefix before the channel handle.
pub open spec fn channel_marker() -> Seq<char> {
    "📢 @"@
}

/// The divider line between header, body and footer.
pub open spec fn divider_line() -> Seq<char> {
    "──────────"@
}

/// The literal footer word that carries the deep link.
pub open spec fn source_word() -> Seq<char> {
    "Source"@
}

pub open spec fn line_break() -> Seq<char> {
    "\n"@
}

/// The canonical deep link to a post.
pub open spec fn deep_link(channel_id: int, message_id: int) -> Seq<char> {
    "https://t.me/c/"@ + dec_int(channel_id) + "/"@ + dec_int(message_id)
}

/// The final composed relay text.
pub open spec fn formatted_text(handle: Seq<char>, text: Seq<char>) -> Seq<char> {
    channel_marker() + handle + line_break() + divider_line() + line_break() + text + line_break()
        + divider_line() + line_break() + source_word()
}

/// UTF-16 length of everything inserted before the body text.
pub open spec fn header_units(handle: Seq<char>) -> int {
    utf16_len(
        channel_marker() + handle + line_break() + divider_line() + line_break(),
    )
}

/// UTF-16 offset of the word "Source" in the final text.
pub open spec fn source_units(handle: Seq<char>, text: Seq<char>) -> int {
    header_units(handle) + utf16_len(text) + utf16_len(
        line_break() + divider_line() + line_break(),
    )
}

/// Build the canonical deep link to a post.
pub fn build_deep_link(channel_id: i64, message_id: i32) -> (r: String)
    ensures
        r@ == deep_link(channel_id as int, message_id as int),
{
    let mut s = String::new();
    s.append("https://t.me/c/");
    let cid = i64_to_string(channel_id);
    s.append(cid.as_str());
    s.append("/");
    let mid = i64_to_string(message_id as i64);
    s.append(mid.as_str());
    proof {
        assert(s@ =~= deep_link(channel_id as int, message_id as int));
    }
    s
}

/// Compose the outbound relay text and its rich-text ranges for one post.
///
/// The ranges address the final text: the handle is bold at its position in
/// the header, every source range is shifted forward by the header's UTF-16
/// length, and the last range marks the word "Source" as a link to the deep
/// link of (channel_id, message_id).
pub fn format_message(
    channel_id: i64,
    channel_handle: String,
    message_id: i32,
    text: String,
    entities: Vec<RichRange>,
) -> (r: (String, Vec<RichRange>))
    requires
        utf16_len(channel_handle@) + utf16_len(text@) + 80 <= usize::MAX,
        forall|i: int|
            0 <= i < entities@.len() ==> (#[trigger] entities@[i]).offset + utf16_len(
                channel_handle@,
            ) + 80 <= usize::MAX,
    ensures
        r.0@ == formatted_text(channel_handle@, text@),
        r.1@.len() == entities@.len() + 2,
        r.1@[0]@.kind == EntityKindView::Bold,
        r.1@[0]@.offset == utf16_len(channel_marker()),
        r.1@[0]@.length == utf16_len(channel_handle@),
        forall|i: int|
            0 <= i < entities@.len() ==> {
                let shifted = #[trigger] r.1@[i + 1]@;
                shifted.kind == entities@[i]@.kind && shifted.offset == entities@[i]@.offset
                    + header_units(channel_handle@) && shifted.length == entities@[i]@.length
            },
        r.1@[r.1@.len() - 1]@.kind == (EntityKindView::TextLink {
            url: deep_link(channel_id as int, message_id as int),
        }),
        r.1@[r.1@.len() - 1]@.offset == source_units(channel_handle@, text@),
        r.1@[r.1@.len() - 1]@.length == 6,
{
    let mut out = String::new();
    out.append("📢 @");
    out.append(channel_handle.as_str());
    out.append("\n");
    out.append("──────────");
    out.append("\n");
    out.append(text.as_str());
    out.append("\n");
    out.append("──────────");
    out.append("\n");
    out.append("Source");
    proof {
        assert(out@ =~= formatted_text(channel_handle@, text@));
    }

    // unit lengths of the fixed pieces, computed over their characters
    let marker_chars = str_to_chars("📢 @");
    let marker_units = utf16_length(&marker_chars);
    let break_chars = str_to_chars("\n");
    let break_units = utf16_length(&break_chars);
    let divider_chars = str_to_chars("──────────");
    let divider_units = utf16_length(&divider_chars);
    let handle_chars = str_to_chars(channel_handle.as_str());
    let handle_units = utf16_length(&handle_chars);
    let text_chars = str_to_chars(text.as_str());
    let text_units = utf16_length(&text_chars);

    proof {
        crate::utf16::lemma_utf16_len_bounds(channel_marker());
        crate::utf16::lemma_utf16_len_bounds(line_break());
        crate::utf16::lemma_utf16_len_bounds(divider_line());
        crate::utf16::lemma_utf16_len_bounds(channel_handle@);
        crate::utf16::lemma_utf16_len_bounds(text@);
        reveal_strlit("📢 @");
        reveal_strlit("\n");
        reveal_strlit("──────────");
        lemma_header_units(channel_handle@, text@);
    }
    let header: u128 = marker_units + handle_units + break_units + divider_units + break_units;
    let source_at: u128 = header + text_units + break_units + divider_units + break_units;
    proof {
        assert(header == header_units(channel_handle@));
        assert(source_at == source_units(channel_handle@, text@));
    }

    let mut ranges: Vec<RichRange> = Vec::new();
    ranges.push(
        RichRange {
            offset: marker_units as usize,
            length: handle_units as usize,
            kind: EntityKind::Bold,
        },
    );
    let n = entities.len();
    let mut i: usize = 0;
    while i < n
        invariant
            n == entities@.len(),
            i <= n,
            ranges@.len() == i + 1,
            ranges@[0]@.kind == EntityKindView::Bold,
            ranges@[0]@.offset == utf16_len(channel_marker()),
            ranges@[0]@.length == utf16_len(channel_handle@),
            header == header_units(channel_handle@),
            header <= usize::MAX as int - 48,
            forall|k: int|
                0 <= k < n ==> (#[trigger] entities@[k]).offset + header_units(channel_handle@)
                    + 48 <= usize::MAX,
            forall|k: int|
                0 <= k < i ==> {
                    let shifted = #[trigger] ranges@[k + 1]@;
                    shifted.kind == entities@[k]@.kind && shifted.offset == entities@[k]@.offset
                        + header_units(channel_handle@) && shifted.length == entities@[k]@.length
                },
        decreases n - i,
    {
        let e = &entities[i];
        ranges.push(
            RichRange {
                offset: e.offset + header as usize,
                length: e.length,
                kind: e.kind.duplicate(),
            },
        );
        i = i + 1;
    }
    let link = build_deep_link(channel_id, message_id);
    ranges.push(
        RichRange { offset: source_at as usize, length: 6, kind: EntityKind::TextLink { url: link } },
    );
    (out, ranges)
}

/// Unit lengths of the composed text's pieces add up.
proof fn lemma_header_units(handle: Seq<char>, text: Seq<char>)
    ensures
        header_units(handle) == utf16_len(channel_marker()) + utf16_len(handle) + 2 * utf16_len(
            line_break(),
        ) + utf16_len(divider_line()),
        source_units(handle, text) == header_units(handle) + utf16_len(text) + 2 * utf16_len(
            line_break(),
        ) + utf16_len(divider_line()),
{
    crate::utf16::lemma_utf16_len_concat(channel_marker(), handle);
    crate::utf16::lemma_utf16_len_concat(channel_marker() + handle, line_break());
    crate::utf16::lemma_utf16_len_concat(channel_marker() + handle + line_break(), divider_line());
    crate::utf16::lemma_utf16_len_concat(
        channel_marker() + handle + line_break() + divider_line(),
        line_break(),
    );
    crate::utf16::lemma_utf16_len_concat(line_break(), divider_line());
    crate::utf16::lemma_utf16_len_concat(line_break() + divider_line(), line_break());
}

} // verus!
