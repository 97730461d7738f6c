//! The gateway's user-facing reply texts.

use vstd::prelude::*;

verus! {

/// The greeting for a new chat.
pub fn start() -> (r: String)
    ensures
        r@ == "👋 Hello! This is a Telegram channels aggregator. Run /help to see the available commands."@,
{
    "👋 Hello! This is a Telegram channels aggregator. Run /help to see the available commands.".to_owned()
}

/// The command overview.
pub fn help() -> (r: String)
    ensures
        r@
            == "Available commands:\n/help — Show this help message\n/start — Start the bot\n/subscribe — Subscribe to a channel: /subscribe @channel\n/unsubscribe — Unsubscribe from a channel: /unsubscribe @channel\n/list — List all subscriptions\n/summarize — Get AI summary of recent messages"@,
{
    "Available commands:\n/help — Show this help message\n/start — Start the bot\n/subscribe — Subscribe to a channel: /subscribe @channel\n/unsubscribe — Unsubscribe from a channel: /unsubscribe @channel\n/list — List all subscriptions\n/summarize — Get AI summary of recent messages".to_owned()
}

/// Shown when a subscribe or unsubscribe command names no channel.
pub fn usage() -> (r: String)
    ensures
        r@ == "Usage: /unsubscribe @channelname"@,
{
    "Usage: /unsubscribe @channelname".to_owned()
}

/// Shown for a command the gateway does not know.
pub fn unknown_command() -> (r: String)
    ensures
        r@ == "❌ Unknown command"@,
{
    "❌ Unknown command".to_owned()
}

/// Shown when the monitor is unreachable or a reply slot was dropped.
pub fn internal_server_error() -> (r: String)
    ensures
        r@ == "❌ Internal server error"@,
{
    "❌ Internal server error".to_owned()
}

/// Shown when the per-user command limiter denies a command.
pub fn throttled() -> (r: String)
    ensures
        r@ == "⏳ Please wait a moment"@,
{
    "⏳ Please wait a moment".to_owned()
}

/// Shown when the per-user summarize limiter denies a summary.
pub fn summarize_throttled() -> (r: String)
    ensures
        r@ == "⏳ /summarize is limited to once per hour"@,
{
    "⏳ /summarize is limited to once per hour".to_owned()
}

/// Sent while a summary is being generated.
pub fn generating_summary() -> (r: String)
    ensures
        r@ == "⏳ Generating summary..."@,
{
    "⏳ Generating summary...".to_owned()
}

/// The reply to a subscribe command.
pub fn render_subscribe_result(channel_handle: &str, result: Result<(), String>) -> (r: String)
    ensures
        r@ == match result {
            Ok(u) => "✅ Subscribed to @"@ + channel_handle@,
            Err(e) => "❌ Failed to subscribe: "@ + e@,
        },
{
    match result {
        Ok(_) => {
            let mut s = String::new();
            s.append("✅ Subscribed to @");
            s.append(channel_handle);
            proof {
                assert(s@ =~= "✅ Subscribed to @"@ + channel_handle@);
            }
            s
        },
        Err(e) => {
            let mut s = String::new();
            s.append("❌ Failed to subscribe: ");
            s.append(e.as_str());
            proof {
                assert(s@ =~= "❌ Failed to subscribe: "@ + e@);
            }
            s
        },
    }
}

/// The reply to an unsubscribe command.
pub fn render_unsubscribe_result(channel_handle: &str, result: Result<(), String>) -> (r: String)
    ensures
        r@ == match result {
            Ok(u) => "✅ Unsubscribed from @"@ + channel_handle@,
            Err(e) => "❌ Failed to unsubscribe: "@ + e@,
        },
{
    match result {
        Ok(_) => {
            let mut s = String::new();
            s.append("✅ Unsubscribed from @");
            s.append(channel_handle);
            proof {
                assert(s@ =~= "✅ Unsubscribed from @"@ + channel_handle@);
            }
            s
        },
        Err(e) => {
            let mut s = String::new();
            s.append("❌ Failed to unsubscribe: ");
            s.append(e.as_str());
            proof {
                assert(s@ =~= "❌ Failed to unsubscribe: "@ + e@);
            }
            s
        },
    }
}

/// One bullet line per subscription handle.
pub open spec fn bullet_lines(hs: Seq<Seq<char>>) -> Seq<char>
    decreases hs.len(),
{
    if hs.len() == 0 {
        Seq::empty()
    } else {
        bullet_lines(hs.drop_last()) + "• @"@ + hs.last() + "\n"@
    }
}

/// The listing text for a non-empty set of subscriptions.
pub open spec fn listing_text(hs: Seq<Seq<char>>) -> Seq<char> {
    "📋 Active subscriptions ("@ + crate::format::dec_digits(hs.len() as int) + "):\n"@
        + bullet_lines(hs)
}

/// The reply to a list command: a fixed line when there are no
/// subscriptions, else a header with the count and one bullet per handle.
pub fn render_list_result(result: Result<Vec<String>, String>) -> (r: String)
    ensures
        r@ == match result {
            Ok(subs) => if subs@.len() == 0 {
                "No active subscriptions"@
            } else {
                listing_text(subs@.map_values(|h: String| h@))
            },
            Err(e) => "❌ Failed to list subscriptions: "@ + e@,
        },
{
    match result {
        Ok(subs) => {
            if subs.len() == 0 {
                return "No active subscriptions".to_owned();
            }
            let mut s = String::new();
            s.append("📋 Active subscriptions (");
            let count = crate::format::u64_to_string(subs.len() as u64);
            s.append(count.as_str());
            s.append("):\n");
            let ghost header = s@;
            let ghost hs = subs@.map_values(|h: String| h@);
            let n = subs.len();
            let mut i: usize = 0;
            proof {
                assert(hs.take(0) =~= Seq::<Seq<char>>::empty());
                assert(s@ =~= header + bullet_lines(hs.take(0)));
            }
            while i < n
                invariant
                    n == subs@.len(),
                    i <= n,
                    hs == subs@.map_values(|h: String| h@),
                    s@ == header + bullet_lines(hs.take(i as int)),
                decreases n - i,
            {
                s.append("• @");
                s.append(subs[i].as_str());
                s.append("\n");
                proof {
                    assert(hs.take(i + 1).drop_last() =~= hs.take(i as int));
                    assert(hs.take(i + 1).last() == hs[i as int]);
                    assert(s@ =~= header + bullet_lines(hs.take(i + 1)));
                }
                i = i + 1;
            }
            proof {
                assert(hs.take(n as int) =~= hs);
                assert(header =~= "📋 Active subscriptions ("@ + crate::format::dec_digits(
                    hs.len() as int,
                ) + "):\n"@);
                assert(s@ =~= listing_text(hs));
            }
            s
        },
        Err(e) => {
            let mut s = String::new();
            s.append("❌ Failed to list subscriptions: ");
            s.append(e.as_str());
            proof {
                assert(s@ =~= "❌ Failed to list subscriptions: "@ + e@);
            }
            s
        },
    }
}

/// The reply when a summary could not be produced.
pub fn render_summarize_error(e: &str) -> (r: String)
    ensures
        r@ == "❌ Failed to summarize: "@ + e@,
{
    let mut s = String::new();
    s.append("❌ Failed to summarize: ");
    s.append(e);
    proof {
        assert(s@ =~= "❌ Failed to summarize: "@ + e@);
    }
    s
}

/// The fixed reply of a summarize command that found nothing to do, if any.
pub fn summarize_fixed_message(outcome: &crate::summarize::SummarizeOutcome) -> (r: Option<String>)
    ensures
        match outcome {
            crate::summarize::SummarizeOutcome::NoSubscriptions => r matches Some(m) && m@
                == "No subscriptions to summarize."@,
            crate::summarize::SummarizeOutcome::NoNewMessages => r matches Some(m) && m@
                == "No new messages since last summary."@,
            crate::summarize::SummarizeOutcome::Batch(b) => r is None,
        },
{
    match outcome {
        crate::summarize::SummarizeOutcome::NoSubscriptions => Some(
            "No subscriptions to summarize.".to_owned(),
        ),
        crate::summarize::SummarizeOutcome::NoNewMessages => Some(
            "No new messages since last summary.".to_owned(),
        ),
        crate::summarize::SummarizeOutcome::Batch(_) => None,
    }
}

} // verus!
