//! Parsing user commands at the gateway.
//!
//! A command message is a leading `/name` token, optionally suffixed with
//! `@botname` (matched against the gateway's own name, ASCII
//! case-insensitively), followed by its argument text. Channel handles given
//! as arguments are normalized by trimming whitespace and stripping leading
//! `@` signs.

use vstd::prelude::*;

use crate::ad_filter::{folded, is_space_char, is_space_exec};

verus! {

/// How many whitespace characters the sequence starts with.
pub open spec fn leading_ws(s: Seq<char>) -> int
    decreases s.len(),
{
    if s.len() == 0 || !is_space_char(s[0]) {
        0
    } else {
        1 + leading_ws(s.skip(1))
    }
}

/// How many whitespace characters the sequence ends with.
pub open spec fn trailing_ws(s: Seq<char>) -> int
    decreases s.len(),
{
    if s.len() == 0 || !is_space_char(s.last()) {
        0
    } else {
        1 + trailing_ws(s.drop_last())
    }
}

/// The sequence with leading and trailing whitespace removed.
pub open spec fn trimmed(s: Seq<char>) -> Seq<char> {
    if leading_ws(s) == s.len() {
        Seq::empty()
    } else {
        s.subrange(leading_ws(s), s.len() - trailing_ws(s))
    }
}

/// How many leading occurrences of `c` the sequence starts with.
pub open spec fn count_leading(s: Seq<char>, c: char) -> int
    decreases s.len(),
{
    if s.len() == 0 || s[0] != c {
        0
    } else {
        1 + count_leading(s.skip(1), c)
    }
}

/// The index of the first whitespace character, or the length if none.
pub open spec fn first_ws(s: Seq<char>) -> int
    decreases s.len(),
{
    if s.len() == 0 || is_space_char(s[0]) {
        0
    } else {
        1 + first_ws(s.skip(1))
    }
}

/// The index of the first `@`, or the length if none.
pub open spec fn first_at(s: Seq<char>) -> int
    decreases s.len(),
{
    if s.len() == 0 || s[0] == '@' {
        0
    } else {
        1 + first_at(s.skip(1))
    }
}

/// A scan that stops at the first whitespace character computes `first_ws`.
proof fn lemma_first_ws_of(s: Seq<char>, i: int)
    requires
        0 <= i <= s.len(),
        forall|j: int| 0 <= j < i ==> !is_space_char(#[trigger] s[j]),
        i < s.len() ==> is_space_char(s[i]),
    ensures
        first_ws(s) == i,
    decreases i,
{
    if i > 0 {
        lemma_first_ws_of(s.skip(1), i - 1);
    }
}

/// A scan that stops at the first `@` computes `first_at`.
proof fn lemma_first_at_of(s: Seq<char>, i: int)
    requires
        0 <= i <= s.len(),
        forall|j: int| 0 <= j < i ==> (#[trigger] s[j]) != '@',
        i < s.len() ==> s[i] == '@',
    ensures
        first_at(s) == i,
    decreases i,
{
    if i > 0 {
        lemma_first_at_of(s.skip(1), i - 1);
    }
}

/// A scan that stops at the first character other than `c` computes
/// `count_leading`.
proof fn lemma_count_leading_of(s: Seq<char>, c: char, i: int)
    requires
        0 <= i <= s.len(),
        forall|j: int| 0 <= j < i ==> (#[trigger] s[j]) == c,
        i < s.len() ==> s[i] != c,
    ensures
        count_leading(s, c) == i,
    decreases i,
{
    if i > 0 {
        lemma_count_leading_of(s.skip(1), c, i - 1);
    }
}

/// A scan that stops at the first non-space computes `leading_ws`.
proof fn lemma_leading_ws_of(s: Seq<char>, i: int)
    requires
        0 <= i <= s.len(),
        forall|j: int| 0 <= j < i ==> is_space_char(#[trigger] s[j]),
        i < s.len() ==> !is_space_char(s[i]),
    ensures
        leading_ws(s) == i,
    decreases i,
{
    if i > 0 {
        lemma_leading_ws_of(s.skip(1), i - 1);
    }
}

/// A backward scan that stops at the last non-space computes `trailing_ws`.
proof fn lemma_trailing_ws_of(s: Seq<char>, i: int)
    requires
        0 <= i <= s.len(),
        forall|j: int| s.len() - i <= j < s.len() ==> is_space_char(#[trigger] s[j]),
        i < s.len() ==> !is_space_char(s[s.len() - i - 1]),
    ensures
        trailing_ws(s) == i,
    decreases i,
{
    if i > 0 {
        assert(is_space_char(s.last()));
        lemma_trailing_ws_of(s.drop_last(), i - 1);
    }
}

/// The first and one-past-last character positions of `trimmed(s)` in `s`.
fn trim_bounds(cs: &Vec<char>) -> (r: (usize, usize))
    ensures
        r.0 <= r.1 <= cs@.len(),
        r.0 == leading_ws(cs@) || (r.0 == cs@.len() && leading_ws(cs@) == cs@.len()),
        trimmed(cs@) == cs@.subrange(r.0 as int, r.1 as int),
{
    let n = cs.len();
    let mut a: usize = 0;
    while a < n && is_space_exec(cs[a])
        invariant
            n == cs@.len(),
            a <= n,
            forall|j: int| 0 <= j < a ==> is_space_char(#[trigger] cs@[j]),
        decreases n - a,
    {
        a = a + 1;
    }
    proof {
        lemma_leading_ws_of(cs@, a as int);
    }
    if a == n {
        proof {
            assert(trimmed(cs@) =~= cs@.subrange(a as int, a as int));
        }
        return (a, a);
    }
    let mut b: usize = n;
    while b > a && is_space_exec(cs[b - 1])
        invariant
            n == cs@.len(),
            a < n,
            a <= b <= n,
            forall|j: int| b <= j < n ==> is_space_char(#[trigger] cs@[j]),
        decreases b,
    {
        b = b - 1;
    }
    proof {
        // the trailing run stops at b - 1, which is not a space: either
        // b == a is impossible (cs[a] is not a space yet all of a.. are)
        if b == a {
            assert(is_space_char(cs@[a as int]));
            assert(false);
        }
        lemma_trailing_ws_of(cs@, (n - b) as int);
        assert(trimmed(cs@) == cs@.subrange(a as int, b as int));
    }
    (a, b)
}

/// What `parse_command` extracts from a message: the trimmed text must start
/// with `/`; the command is the first whitespace-separated token with all
/// leading slashes stripped; the arguments are everything after the first
/// whitespace character.
pub open spec fn spec_parse_command(s: Seq<char>) -> Option<(Seq<char>, Seq<char>)> {
    let t = trimmed(s);
    if t.len() == 0 || t[0] != '/' {
        None
    } else {
        let i = first_ws(t);
        let tok = t.subrange(0, i);
        let cmd = tok.skip(count_leading(tok, '/'));
        let args = if i == t.len() {
            Seq::<char>::empty()
        } else {
            t.subrange(i + 1, t.len() as int)
        };
        Some((cmd, args))
    }
}

/// Parse a command from message text: the command name and its argument
/// text, or nothing when the text is not a command.
pub fn parse_command(text: &str) -> (r: Option<(&str, &str)>)
    ensures
        match r {
            Some(p) => spec_parse_command(text@) == Some((p.0@, p.1@)),
            None => spec_parse_command(text@) is None,
        },
{
    let cs = crate::utf16::str_to_chars(text);
    let (a, b) = trim_bounds(&cs);
    let ghost t = trimmed(text@);
    if a == b {
        return None;
    }
    if cs[a] != '/' {
        return None;
    }
    // first whitespace inside the trimmed region
    let mut i: usize = a;
    while i < b && !is_space_exec(cs[i])
        invariant
            a <= i <= b <= cs@.len(),
            forall|j: int| a <= j < i ==> !is_space_char(#[trigger] cs@[j]),
        decreases b - i,
    {
        i = i + 1;
    }
    proof {
        assert(t =~= cs@.subrange(a as int, b as int));
        assert forall|j: int| 0 <= j < i - a implies !is_space_char(#[trigger] t[j]) by {
            assert(t[j] == cs@[a + j]);
        }
        if (i as int - a) < t.len() {
            assert(t[i - a] == cs@[i as int]);
            // the scan stopped either at b or at a space
            if i < b {
            } else {
                assert(false);
            }
        }
        lemma_first_ws_of(t, i - a);
    }
    // leading slashes of the command token
    let mut sl: usize = a;
    while sl < i && cs[sl] == '/'
        invariant
            a <= sl <= i <= b <= cs@.len(),
            forall|j: int| a <= j < sl ==> (#[trigger] cs@[j]) == '/',
        decreases i - sl,
    {
        sl = sl + 1;
    }
    let ghost tok = t.subrange(0, i - a);
    proof {
        assert forall|j: int| 0 <= j < sl - a implies (#[trigger] tok[j]) == '/' by {
            assert(tok[j] == cs@[a + j]);
        }
        if (sl as int - a) < tok.len() {
            assert(tok[sl - a] == cs@[sl as int]);
        }
        lemma_count_leading_of(tok, '/', sl - a);
        assert(tok.skip(sl - a) =~= cs@.subrange(sl as int, i as int));
    }
    let cmd = text.substring_char(sl, i);
    let args = if i == b {
        proof {
            reveal_strlit("");
        }
        ""
    } else {
        text.substring_char(i + 1, b)
    };
    proof {
        if i < b {
            assert(t.subrange(i - a + 1, t.len() as int) =~= cs@.subrange(i + 1 as int, b as int));
        }
    }
    Some((cmd, args))
}

/// A channel handle as given by the user, with surrounding whitespace and
/// leading `@` signs removed.
pub open spec fn normalized_handle(s: Seq<char>) -> Seq<char> {
    let t = trimmed(s);
    t.skip(count_leading(t, '@'))
}

/// Normalize a channel handle given as command arguments.
pub fn normalize_handle(s: &str) -> (r: String)
    ensures
        r@ == normalized_handle(s@),
{
    let cs = crate::utf16::str_to_chars(s);
    let (a, b) = trim_bounds(&cs);
    let ghost t = trimmed(s@);
    let mut at: usize = a;
    while at < b && cs[at] == '@'
        invariant
            a <= at <= b <= cs@.len(),
            forall|j: int| a <= j < at ==> (#[trigger] cs@[j]) == '@',
        decreases b - at,
    {
        at = at + 1;
    }
    proof {
        assert(t =~= cs@.subrange(a as int, b as int));
        assert forall|j: int| 0 <= j < at - a implies (#[trigger] t[j]) == '@' by {
            assert(t[j] == cs@[a + j]);
        }
        if (at as int - a) < t.len() {
            assert(t[at - a] == cs@[at as int]);
        }
        lemma_count_leading_of(t, '@', at - a);
        assert(t.skip(at - a) =~= cs@.subrange(at as int, b as int));
    }
    s.substring_char(at, b).to_owned()
}

/// A parsed gateway command.
pub enum BotCommand {
    Help,
    Start,
    Subscribe(String),
    Unsubscribe(String),
    List,
    Summarize,
}

/// The model of a parsed gateway command.
pub enum BotCommandView {
    Help,
    Start,
    Subscribe(Seq<char>),
    Unsubscribe(Seq<char>),
    List,
    Summarize,
}

impl View for BotCommand {
    type V = BotCommandView;

    open spec fn view(&self) -> BotCommandView {
        match self {
            BotCommand::Help => BotCommandView::Help,
            BotCommand::Start => BotCommandView::Start,
            BotCommand::Subscribe(h) => BotCommandView::Subscribe(h@),
            BotCommand::Unsubscribe(h) => BotCommandView::Unsubscribe(h@),
            BotCommand::List => BotCommandView::List,
            BotCommand::Summarize => BotCommandView::Summarize,
        }
    }
}

/// The two sequences are equal up to ASCII case.
pub open spec fn folded_eq(a: Seq<char>, b: Seq<char>) -> bool {
    a.len() == b.len() && forall|j: int| 0 <= j < a.len() ==> folded(#[trigger] a[j]) == folded(
        b[j],
    )
}

/// What the gateway makes of one message, given its own bot name: the
/// message must begin with a `/name` token; a `@mention` suffix of the token
/// must name this bot (ASCII case-insensitively); the name picks the
/// command; commands without arguments refuse trailing text, and the
/// subscribe and unsubscribe arguments are everything after the token.
pub open spec fn spec_parse_bot_command(s: Seq<char>, me: Seq<char>) -> Option<BotCommandView> {
    if s.len() == 0 || s[0] != '/' {
        None
    } else {
        let i = first_ws(s);
        let tok = s.subrange(0, i);
        let name = tok.subrange(0, first_at(tok));
        let args = if i == s.len() {
            Seq::<char>::empty()
        } else {
            s.subrange(i + 1, s.len() as int)
        };
        if first_at(tok) < tok.len() && !folded_eq(
            tok.subrange(first_at(tok) + 1, tok.len() as int),
            me,
        ) {
            None
        } else if name == "/subscribe"@ {
            Some(BotCommandView::Subscribe(args))
        } else if name == "/unsubscribe"@ {
            Some(BotCommandView::Unsubscribe(args))
        } else if trimmed(args).len() != 0 {
            None
        } else if name == "/help"@ {
            Some(BotCommandView::Help)
        } else if name == "/start"@ {
            Some(BotCommandView::Start)
        } else if name == "/list"@ {
            Some(BotCommandView::List)
        } else if name == "/summarize"@ {
            Some(BotCommandView::Summarize)
        } else {
            None
        }
    }
}

/// Case-insensitive ASCII equality of two strings.
fn folded_eq_exec(a: &str, b: &str) -> (r: bool)
    ensures
        r == folded_eq(a@, b@),
{
    let na = a.unicode_len();
    let nb = b.unicode_len();
    if na != nb {
        return false;
    }
    let mut j: usize = 0;
    while j < na
        invariant
            na == a@.len(),
            na == b@.len(),
            j <= na,
            forall|k: int| 0 <= k < j ==> folded(#[trigger] a@[k]) == folded(b@[k]),
        decreases na - j,
    {
        let ca = a.get_char(j);
        let cb = b.get_char(j);
        if crate::ad_filter::folded_exec(ca) != crate::ad_filter::folded_exec(cb) {
            return false;
        }
        j = j + 1;
    }
    true
}

/// Parse one gateway command message.
pub fn parse_bot_command(text: &str, me: &str) -> (r: Option<BotCommand>)
    ensures
        match r {
            Some(c) => spec_parse_bot_command(text@, me@) == Some(c@),
            None => spec_parse_bot_command(text@, me@) is None,
        },
{
    let cs = crate::utf16::str_to_chars(text);
    let n = cs.len();
    if n == 0 {
        return None;
    }
    if cs[0] != '/' {
        return None;
    }
    // the command token ends at the first whitespace
    let mut i: usize = 0;
    while i < n && !is_space_exec(cs[i])
        invariant
            n == cs@.len(),
            i <= n,
            forall|j: int| 0 <= j < i ==> !is_space_char(#[trigger] cs@[j]),
        decreases n - i,
    {
        i = i + 1;
    }
    proof {
        lemma_first_ws_of(cs@, i as int);
    }
    // an optional @mention splits the token
    let mut at: usize = 0;
    while at < i && cs[at] != '@'
        invariant
            at <= i <= n,
            n == cs@.len(),
            forall|j: int| 0 <= j < at ==> (#[trigger] cs@[j]) != '@',
        decreases i - at,
    {
        at = at + 1;
    }
    let ghost tok = cs@.subrange(0, i as int);
    proof {
        assert forall|j: int| 0 <= j < at implies (#[trigger] tok[j]) != '@' by {
            assert(tok[j] == cs@[j]);
        }
        if (at as int) < tok.len() {
            assert(tok[at as int] == cs@[at as int]);
        }
        lemma_first_at_of(tok, at as int);
    }
    if at < i {
        let mention = text.substring_char(at + 1, i);
        proof {
            assert(mention@ =~= tok.subrange(at + 1, tok.len() as int));
        }
        if !folded_eq_exec(mention, me) {
            return None;
        }
    }
    let name = text.substring_char(0, at);
    proof {
        assert(name@ =~= tok.subrange(0, at as int));
    }
    let args: String = if i == n {
        String::new()
    } else {
        text.substring_char(i + 1, n).to_owned()
    };
    proof {
        if (i as int) < cs@.len() {
            assert(args@ =~= cs@.subrange(i + 1 as int, n as int));
        }
    }
    if crate::utf16::str_eq(name, "/subscribe") {
        return Some(BotCommand::Subscribe(args));
    }
    if crate::utf16::str_eq(name, "/unsubscribe") {
        return Some(BotCommand::Unsubscribe(args));
    }
    let args_cs = crate::utf16::str_to_chars(args.as_str());
    let (ta, tb) = trim_bounds(&args_cs);
    if ta != tb {
        proof {
            assert(trimmed(args@).len() == tb - ta);
        }
        return None;
    }
    proof {
        assert(trimmed(args@).len() == 0);
    }
    if crate::utf16::str_eq(name, "/help") {
        return Some(BotCommand::Help);
    }
    if crate::utf16::str_eq(name, "/start") {
        return Some(BotCommand::Start);
    }
    if crate::utf16::str_eq(name, "/list") {
        return Some(BotCommand::List);
    }
    if crate::utf16::str_eq(name, "/summarize") {
        return Some(BotCommand::Summarize);
    }
    None
}

} // verus!
