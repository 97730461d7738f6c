//! Assembling a user's summary batch.
//!
//! A summary covers the stored messages of the user's subscribed channels
//! since the user's last summary (or a default window back), keeps only
//! substantial texts, takes the most recent ones up to a fixed cap, and hands
//! at most one message per channel to the summarizer. The summarizer call
//! itself is a network round-trip and belongs to the surrounding
//! application; this module prepares its input and advances the user's
//! checkpoint.

use vstd::prelude::*;

use crate::repo::{
    DEFAULT_SUMMARY_WINDOW_SECS, Repo, StoredMessage, Subscription, has_state, has_subscription,
    spec_last_summarize_time, state_time, user_subs,
};

verus! {

/// The most messages one summary may cover.
pub const MAX_SUMMARY_MESSAGES: usize = 150;

/// Messages whose text has no more characters than this are left out of
/// summaries (they are relayed, but add noise to a summary).
pub const MIN_SUMMARY_TEXT_CHARS: usize = 30;

/// One message as the summarizer sees it.
pub struct MessageData {
    pub channel_id: i64,
    pub channel_handle: String,
    pub text: String,
    pub date: i64,
}

/// What a summarize command found.
pub enum SummarizeOutcome {
    /// The user has no subscriptions; state is untouched.
    NoSubscriptions,
    /// Nothing qualifying arrived since the last summary; state is untouched.
    NoNewMessages,
    /// The batch for the summarizer; the user's checkpoint was advanced.
    Batch(Vec<MessageData>),
}

/// Whether one stored message qualifies for this user's summary.
pub open spec fn eligible_pred(ss: Seq<Subscription>, user_id: i64, since: int) -> spec_fn(
    StoredMessage,
) -> bool {
    |m: StoredMessage|
        has_subscription(ss, user_id, m.channel_id) && m.date >= since && m.text@.len()
            > MIN_SUMMARY_TEXT_CHARS
}

/// The stored messages qualifying for this user's summary, in store order.
pub open spec fn eligible_msgs(
    ms: Seq<StoredMessage>,
    ss: Seq<Subscription>,
    user_id: i64,
    since: int,
) -> Seq<StoredMessage> {
    ms.filter(eligible_pred(ss, user_id, since))
}

/// Dates never increase along the sequence.
pub open spec fn sorted_by_date_desc(ms: Seq<StoredMessage>) -> bool {
    forall|i: int, j: int|
        0 <= i < j < ms.len() ==> (#[trigger] ms[i]).date >= (#[trigger] ms[j]).date
}

/// The value `m` occurs in `s`.
pub open spec fn appears_in(m: StoredMessage, s: Seq<StoredMessage>) -> bool {
    exists|j: int| 0 <= j < s.len() && s[j] == m
}

/// Some entry of `s` has `m`'s channel and is at least as recent.
pub open spec fn channel_covered(m: StoredMessage, s: Seq<StoredMessage>) -> bool {
    exists|k: int|
        0 <= k < s.len() && (#[trigger] s[k]).channel_id == m.channel_id && s[k].date >= m.date
}

/// Some entry of `ds` has `m`'s channel and is at least as recent.
pub open spec fn covered_by_data(m: StoredMessage, ds: Seq<MessageData>) -> bool {
    exists|k: int|
        0 <= k < ds.len() && (#[trigger] ds[k]).channel_id == m.channel_id && ds[k].date >= m.date
}

/// `d` carries the channel, text and date of some entry of `ms`.
pub open spec fn drawn_from(d: MessageData, ms: Seq<StoredMessage>) -> bool {
    exists|j: int|
        0 <= j < ms.len() && (#[trigger] ms[j]).channel_id == d.channel_id && ms[j].text@
            == d.text@ && ms[j].date == d.date
}

/// Some row of `ss` caches a handle for `m`'s channel.
pub open spec fn channel_known(m: StoredMessage, ss: Seq<Subscription>) -> bool {
    exists|j: int| 0 <= j < ss.len() && (#[trigger] ss[j]).channel_id == m.channel_id
}

/// `d`'s handle is the one some row of `ss` caches for `d`'s channel.
pub open spec fn handle_from(d: MessageData, ss: Seq<Subscription>) -> bool {
    exists|j: int|
        0 <= j < ss.len() && (#[trigger] ss[j]).channel_id == d.channel_id && d.channel_handle@
            == ss[j].channel_handle@
}

/// The qualifying messages, in store order.
fn collect_eligible(repo: &Repo, user_id: i64, since: i64) -> (r: Vec<StoredMessage>)
    ensures
        r@ == eligible_msgs(repo.messages@, repo.subscriptions@, user_id, since as int),
{
    let ghost pred = eligible_pred(repo.subscriptions@, user_id, since as int);
    let n = repo.messages.len();
    let mut r: Vec<StoredMessage> = Vec::new();
    let mut i: usize = 0;
    proof {
        assert(repo.messages@.take(0).filter(pred) =~= Seq::<StoredMessage>::empty()) by {
            reveal(Seq::filter);
        }
    }
    while i < n
        invariant
            n == repo.messages@.len(),
            i <= n,
            pred == eligible_pred(repo.subscriptions@, user_id, since as int),
            r@ == repo.messages@.take(i as int).filter(pred),
        decreases n - i,
    {
        proof {
            crate::repo::lemma_filter_take_succ(repo.messages@, pred, i as int);
        }
        let m = &repo.messages[i];
        if repo.is_user_subscribed(user_id, m.channel_id) && m.date >= since
            && m.text.as_str().unicode_len() > MIN_SUMMARY_TEXT_CHARS {
            r.push(m.duplicate());
        }
        i = i + 1;
    }
    proof {
        assert(repo.messages@.take(n as int) =~= repo.messages@);
    }
    r
}

/// The most recent messages of the input, most recent first, up to `cap` of
/// them. Every value of the input appears in the result when the cap is not
/// hit.
pub(crate) fn take_top_by_date(msgs: Vec<StoredMessage>, cap: usize) -> (r: Vec<StoredMessage>)
    ensures
        sorted_by_date_desc(r@),
        r@.len() == if msgs@.len() <= cap as int {
            msgs@.len() as int
        } else {
            cap as int
        },
        forall|k: int| 0 <= k < r@.len() ==> appears_in(#[trigger] r@[k], msgs@),
        msgs@.len() <= cap as int ==> forall|j: int|
            0 <= j < msgs@.len() ==> appears_in(#[trigger] msgs@[j], r@),
{
    let ghost orig = msgs@;
    let mut remaining = msgs;
    let mut out: Vec<StoredMessage> = Vec::new();
    proof {
        assert forall|k: int| 0 <= k < remaining@.len() implies appears_in(
            #[trigger] remaining@[k],
            orig,
        ) by {
            assert(orig[k] == remaining@[k]);
        }
        assert forall|j: int| 0 <= j < orig.len() implies appears_in(#[trigger] orig[j], out@)
            || appears_in(orig[j], remaining@) by {
            assert(remaining@[j] == orig[j]);
        }
    }
    while out.len() < cap && remaining.len() > 0
        invariant
            out@.len() + remaining@.len() == orig.len(),
            out@.len() <= cap,
            sorted_by_date_desc(out@),
            forall|a: int, b: int|
                0 <= a < out@.len() && 0 <= b < remaining@.len() ==> (#[trigger] out@[a]).date
                    >= (#[trigger] remaining@[b]).date,
            forall|k: int| 0 <= k < out@.len() ==> appears_in(#[trigger] out@[k], orig),
            forall|k: int| 0 <= k < remaining@.len() ==> appears_in(#[trigger] remaining@[k], orig),
            forall|j: int|
                0 <= j < orig.len() ==> appears_in(#[trigger] orig[j], out@) || appears_in(
                    orig[j],
                    remaining@,
                ),
        decreases remaining@.len(),
    {
        // the first most-recent message still remaining
        let mut best: usize = 0;
        let mut j: usize = 1;
        while j < remaining.len()
            invariant
                remaining@.len() > 0,
                best < j,
                j <= remaining@.len(),
                forall|k: int|
                    0 <= k < j ==> remaining@[best as int].date >= (#[trigger] remaining@[k]).date,
            decreases remaining@.len() - j,
        {
            if remaining[j].date > remaining[best].date {
                best = j;
            }
            j = j + 1;
        }
        let ghost old_out = out@;
        let ghost old_rem = remaining@;
        let m = remaining.remove(best);
        out.push(m);
        proof {
            assert forall|k: int| 0 <= k < out@.len() implies appears_in(
                #[trigger] out@[k],
                orig,
            ) by {
                if k < old_out.len() {
                    assert(out@[k] == old_out[k]);
                } else {
                    assert(out@[k] == old_rem[best as int]);
                }
            }
            assert forall|k: int| 0 <= k < remaining@.len() implies appears_in(
                #[trigger] remaining@[k],
                orig,
            ) by {
                if k < best as int {
                    assert(remaining@[k] == old_rem[k]);
                } else {
                    assert(remaining@[k] == old_rem[k + 1]);
                }
            }
            assert forall|jj: int| 0 <= jj < orig.len() implies appears_in(
                #[trigger] orig[jj],
                out@,
            ) || appears_in(orig[jj], remaining@) by {
                if appears_in(orig[jj], old_out) {
                    let k = choose|k: int| 0 <= k < old_out.len() && old_out[k] == orig[jj];
                    assert(out@[k] == orig[jj]);
                } else {
                    let k = choose|k: int| 0 <= k < old_rem.len() && old_rem[k] == orig[jj];
                    if k == best as int {
                        assert(out@[out@.len() - 1] == orig[jj]);
                    } else if k < best as int {
                        assert(remaining@[k] == orig[jj]);
                    } else {
                        assert(remaining@[k - 1] == orig[jj]);
                    }
                }
            }
            assert forall|a: int, b: int|
                0 <= a < out@.len() && 0 <= b < remaining@.len() implies (#[trigger] out@[a]).date
                >= (#[trigger] remaining@[b]).date by {
                let ghost prev = if b < best as int {
                    b
                } else {
                    b + 1
                };
                assert(remaining@[b] == old_rem[prev]);
                if a < old_out.len() {
                    assert(old_out[a].date >= old_rem[prev].date);
                } else {
                    assert(out@[a] == old_rem[best as int]);
                }
            }
            assert(sorted_by_date_desc(out@)) by {
                assert forall|a: int, b: int|
                    0 <= a < b < out@.len() implies (#[trigger] out@[a]).date >= (
                #[trigger] out@[b]).date by {
                    if b < old_out.len() {
                        assert(out@[a] == old_out[a] && out@[b] == old_out[b]);
                    } else {
                        assert(out@[b] == old_rem[best as int]);
                        assert(old_out[a].date >= old_rem[best as int].date);
                    }
                }
            }
        }
    }
    proof {
        if orig.len() <= cap as int {
            assert(remaining@.len() == 0);
        }
    }
    out
}

/// Keep the first (most recent) message of each channel, dropping the rest.
fn dedupe_channels(msgs: Vec<StoredMessage>) -> (r: Vec<StoredMessage>)
    requires
        sorted_by_date_desc(msgs@),
    ensures
        sorted_by_date_desc(r@),
        r@.len() <= msgs@.len(),
        msgs@.len() > 0 ==> r@.len() > 0,
        forall|k1: int, k2: int|
            0 <= k1 < k2 < r@.len() ==> (#[trigger] r@[k1]).channel_id != (
            #[trigger] r@[k2]).channel_id,
        forall|k: int| 0 <= k < r@.len() ==> appears_in(#[trigger] r@[k], msgs@),
        forall|j: int| 0 <= j < msgs@.len() ==> channel_covered(#[trigger] msgs@[j], r@),
{
    let n = msgs.len();
    let mut r: Vec<StoredMessage> = Vec::new();
    let mut i: usize = 0;
    while i < n
        invariant
            n == msgs@.len(),
            i <= n,
            r@.len() <= i,
            i > 0 ==> r@.len() > 0,
            sorted_by_date_desc(msgs@),
            sorted_by_date_desc(r@),
            forall|k1: int, k2: int|
                0 <= k1 < k2 < r@.len() ==> (#[trigger] r@[k1]).channel_id != (
                #[trigger] r@[k2]).channel_id,
            forall|k: int|
                0 <= k < r@.len() ==> exists|j: int| 0 <= j < i && #[trigger] r@[k] == msgs@[j],
            forall|j: int| 0 <= j < i ==> channel_covered(#[trigger] msgs@[j], r@),
        decreases n - i,
    {
        let c = msgs[i].channel_id;
        let mut seen = false;
        let m = r.len();
        let mut k: usize = 0;
        while k < m
            invariant
                m == r@.len(),
                k <= m,
                seen == exists|kk: int| 0 <= kk < k && (#[trigger] r@[kk]).channel_id == c,
            decreases m - k,
        {
            if r[k].channel_id == c {
                seen = true;
            }
            k = k + 1;
        }
        let ghost old_r = r@;
        if !seen {
            r.push(msgs[i].duplicate());
            proof {
                // dates in r come from the prefix, which dominates msgs[i]
                assert forall|a: int, b: int|
                    0 <= a < b < r@.len() implies (#[trigger] r@[a]).date >= (
                #[trigger] r@[b]).date by {
                    if b == r@.len() - 1 {
                        let j = choose|j: int| 0 <= j < i && old_r[a] == msgs@[j];
                        assert(msgs@[j].date >= msgs@[i as int].date);
                    } else {
                        assert(r@[a] == old_r[a] && r@[b] == old_r[b]);
                    }
                }
            }
        }
        proof {
            assert forall|j: int| 0 <= j <= i implies channel_covered(#[trigger] msgs@[j], r@) by {
                if j < i {
                    let k2 = choose|k2: int|
                        0 <= k2 < old_r.len() && (#[trigger] old_r[k2]).channel_id
                            == msgs@[j].channel_id && old_r[k2].date >= msgs@[j].date;
                    assert(r@[k2] == old_r[k2]);
                } else {
                    if seen {
                        let kk = choose|kk: int|
                            0 <= kk < old_r.len() && (#[trigger] old_r[kk]).channel_id == c;
                        let jj = choose|jj: int| 0 <= jj < i && old_r[kk] == msgs@[jj];
                        assert(msgs@[jj].date >= msgs@[i as int].date);
                        assert(r@[kk] == old_r[kk]);
                    } else {
                        assert(r@[r@.len() - 1].channel_id == msgs@[i as int].channel_id);
                    }
                }
            }
        }
        i = i + 1;
    }
    proof {
        assert forall|k: int| 0 <= k < r@.len() implies appears_in(#[trigger] r@[k], msgs@) by {
            let j = choose|j: int| 0 <= j < n && r@[k] == msgs@[j];
            assert(msgs@[j] == r@[k]);
        }
    }
    r
}

/// Pair each message with its channel's cached handle from the user's
/// subscriptions.
fn attach_handles(msgs: &Vec<StoredMessage>, subs: &Vec<Subscription>) -> (r: Vec<MessageData>)
    requires
        forall|k: int| 0 <= k < msgs@.len() ==> channel_known(#[trigger] msgs@[k], subs@),
    ensures
        r@.len() == msgs@.len(),
        forall|k: int|
            0 <= k < r@.len() ==> {
                let d = #[trigger] r@[k];
                d.channel_id == msgs@[k].channel_id && d.text@ == msgs@[k].text@ && d.date
                    == msgs@[k].date && handle_from(d, subs@)
            },
{
    let n = msgs.len();
    let mut r: Vec<MessageData> = Vec::new();
    let mut i: usize = 0;
    while i < n
        invariant
            n == msgs@.len(),
            i <= n,
            r@.len() == i,
            forall|k: int| 0 <= k < msgs@.len() ==> channel_known(#[trigger] msgs@[k], subs@),
            forall|k: int|
                0 <= k < i ==> {
                    let d = #[trigger] r@[k];
                    d.channel_id == msgs@[k].channel_id && d.text@ == msgs@[k].text@ && d.date
                        == msgs@[k].date && handle_from(d, subs@)
                },
        decreases n - i,
    {
        let c = msgs[i].channel_id;
        let m = subs.len();
        let mut j: usize = 0;
        let mut found = false;
        let mut handle: String = String::new();
        while j < m
            invariant
                m == subs@.len(),
                j <= m,
                !found ==> forall|k: int| 0 <= k < j ==> (#[trigger] subs@[k]).channel_id != c,
                found ==> exists|k: int|
                    0 <= k < subs@.len() && (#[trigger] subs@[k]).channel_id == c && handle@
                        == subs@[k].channel_handle@,
            decreases m - j,
        {
            if !found && subs[j].channel_id == c {
                found = true;
                handle = subs[j].channel_handle.clone();
            }
            j = j + 1;
        }
        proof {
            if !found {
                assert(channel_known(msgs@[i as int], subs@));
                assert(false);
            }
        }
        r.push(
            MessageData {
                channel_id: c,
                channel_handle: handle,
                text: msgs[i].text.clone(),
                date: msgs[i].date,
            },
        );
        i = i + 1;
    }
    r
}

/// Prepare the summarizer's input for one user, advancing the user's
/// checkpoint exactly when a batch is produced. The checkpoint is committed
/// before the summarizer is invoked: a failed summarizer call therefore
/// skips these messages rather than resending them next time.
///
/// The batch holds at most one message per channel, most recent first, each
/// drawn from the qualifying stored messages and labelled with the handle the
/// user's subscription caches for its channel. When the cap leaves room for
/// all qualifying messages, every channel with a qualifying message is
/// represented by one at least as recent.
#[verifier::rlimit(50)]
pub fn summarize_prepare(repo: &mut Repo, user_id: i64, now: i64) -> (r: SummarizeOutcome)
    requires
        old(repo).wf(),
        i64::MIN + DEFAULT_SUMMARY_WINDOW_SECS <= now,
    ensures
        final(repo).wf(),
        final(repo).subscriptions@ == old(repo).subscriptions@,
        final(repo).messages@ == old(repo).messages@,
        final(repo).users@ == old(repo).users@,
        ({
            let ss = old(repo).subscriptions@;
            let since = spec_last_summarize_time(old(repo).summarize_state@, user_id, now);
            let elig = eligible_msgs(old(repo).messages@, ss, user_id, since);
            if user_subs(ss, user_id).len() == 0 {
                &&& r matches SummarizeOutcome::NoSubscriptions
                &&& final(repo).summarize_state@ == old(repo).summarize_state@
            } else if elig.len() == 0 {
                &&& r matches SummarizeOutcome::NoNewMessages
                &&& final(repo).summarize_state@ == old(repo).summarize_state@
            } else {
                &&& r matches SummarizeOutcome::Batch(list) && {
                    let ds = list@;
                    &&& 1 <= ds.len() <= MAX_SUMMARY_MESSAGES as int
                    &&& forall|k1: int, k2: int|
                        0 <= k1 < k2 < ds.len() ==> (#[trigger] ds[k1]).date >= (
                        #[trigger] ds[k2]).date
                    &&& forall|k1: int, k2: int|
                        0 <= k1 < k2 < ds.len() ==> (#[trigger] ds[k1]).channel_id != (
                        #[trigger] ds[k2]).channel_id
                    &&& forall|k: int| 0 <= k < ds.len() ==> drawn_from(#[trigger] ds[k], elig)
                    &&& forall|k: int|
                        0 <= k < ds.len() ==> handle_from(#[trigger] ds[k], user_subs(ss, user_id))
                    &&& elig.len() <= MAX_SUMMARY_MESSAGES as int ==> forall|j: int|
                        0 <= j < elig.len() ==> covered_by_data(#[trigger] elig[j], ds)
                }
                &&& has_state(final(repo).summarize_state@, user_id)
                &&& state_time(final(repo).summarize_state@, user_id) == now
                &&& forall|u: i64, t: i64|
                    u != user_id ==> spec_last_summarize_time(final(repo).summarize_state@, u, t)
                        == spec_last_summarize_time(old(repo).summarize_state@, u, t)
            }
        }),
{
    let subs = repo.get_user_subscriptions(user_id);
    if subs.len() == 0 {
        return SummarizeOutcome::NoSubscriptions;
    }
    let since = repo.get_last_summarize_time(user_id, now);
    let eligible = collect_eligible(repo, user_id, since);
    if eligible.len() == 0 {
        return SummarizeOutcome::NoNewMessages;
    }
    let ghost elig = eligible@;
    let ghost ss = repo.subscriptions@;
    let top = take_top_by_date(eligible, MAX_SUMMARY_MESSAGES);
    let deduped = dedupe_channels(top);
    proof {
        // every message in the batch belongs to a channel the user follows,
        // so its handle is cached in the user's subscription rows
        assert forall|k: int| 0 <= k < deduped@.len() implies channel_known(
            #[trigger] deduped@[k],
            subs@,
        ) by {
            let j1 = choose|j1: int| 0 <= j1 < top@.len() && top@[j1] == deduped@[k];
            let j2 = choose|j2: int| 0 <= j2 < elig.len() && elig[j2] == top@[j1];
            Seq::lemma_filter_pred(repo.messages@, eligible_pred(ss, user_id, since as int), j2);
            let m = elig[j2];
            assert(has_subscription(ss, user_id, m.channel_id));
            let j3 = choose|j3: int|
                0 <= j3 < ss.len() && crate::repo::sub_key_matches(
                    #[trigger] ss[j3],
                    user_id,
                    m.channel_id,
                );
            Seq::lemma_filter_contains(ss, |s: Subscription| s.user_id == user_id, j3);
            assert(user_subs(ss, user_id).contains(ss[j3]));
            let j4 = choose|j4: int|
                0 <= j4 < user_subs(ss, user_id).len() && user_subs(ss, user_id)[j4] == ss[j3];
            assert(subs@[j4] == ss[j3]);
        }
    }
    let list = attach_handles(&deduped, &subs);
    repo.update_summarize_time(user_id, now);
    proof {
        // chain provenance: batch -> deduped -> top -> eligible
        assert forall|k: int| 0 <= k < list@.len() implies drawn_from(#[trigger] list@[k], elig) by {
            let j1 = choose|j1: int| 0 <= j1 < top@.len() && top@[j1] == deduped@[k];
            let j2 = choose|j2: int| 0 <= j2 < elig.len() && elig[j2] == top@[j1];
            assert(elig[j2].channel_id == list@[k].channel_id);
        }
        // chain domination when the cap is not hit
        if elig.len() <= MAX_SUMMARY_MESSAGES as int {
            assert forall|j: int| 0 <= j < elig.len() implies covered_by_data(
                #[trigger] elig[j],
                list@,
            ) by {
                let k1 = choose|k1: int| 0 <= k1 < top@.len() && top@[k1] == elig[j];
                assert(channel_covered(top@[k1], deduped@));
                let k2 = choose|k2: int|
                    0 <= k2 < deduped@.len() && (#[trigger] deduped@[k2]).channel_id
                        == top@[k1].channel_id && deduped@[k2].date >= top@[k1].date;
                assert(list@[k2].channel_id == deduped@[k2].channel_id);
                assert(list@[k2].date == deduped@[k2].date);
            }
        }
        // handles come from the user's own subscription rows
        assert(subs@ == user_subs(ss, user_id));
        assert forall|k: int| 0 <= k < list@.len() implies handle_from(
            #[trigger] list@[k],
            user_subs(ss, user_id),
        ) by {
            assert(handle_from(list@[k], subs@));
        }
    }
    SummarizeOutcome::Batch(list)
}


/// Whether one stored message falls in the queried window.
pub open spec fn window_pred(channel_ids: Seq<i64>, since: int) -> spec_fn(StoredMessage) -> bool {
    |m: StoredMessage|
        channel_ids.contains(m.channel_id) && m.date >= since && m.text@.len()
            > MIN_SUMMARY_TEXT_CHARS
}

/// The stored messages of the given channels in the window, in store order.
pub open spec fn window_msgs(
    ms: Seq<StoredMessage>,
    channel_ids: Seq<i64>,
    since: int,
) -> Seq<StoredMessage> {
    ms.filter(window_pred(channel_ids, since))
}

impl Repo {
    /// The stored messages of the given channels with timestamp at least
    /// `since` and substantial text, most recent first, capped at `limit`.
    /// Every qualifying message appears when the cap leaves room.
    pub fn get_messages_since(&self, channel_ids: &Vec<i64>, since: i64, limit: usize) -> (r: Vec<
        StoredMessage,
    >)
        ensures
            sorted_by_date_desc(r@),
            ({
                let win = window_msgs(self.messages@, channel_ids@, since as int);
                &&& r@.len() == if win.len() <= limit as int {
                    win.len() as int
                } else {
                    limit as int
                }
                &&& forall|k: int| 0 <= k < r@.len() ==> appears_in(#[trigger] r@[k], win)
                &&& win.len() <= limit as int ==> forall|j: int|
                    0 <= j < win.len() ==> appears_in(#[trigger] win[j], r@)
            }),
    {
        let ghost pred = window_pred(channel_ids@, since as int);
        let n = self.messages.len();
        let mut matching: Vec<StoredMessage> = Vec::new();
        let mut i: usize = 0;
        proof {
            assert(self.messages@.take(0).filter(pred) =~= Seq::<StoredMessage>::empty()) by {
                reveal(Seq::filter);
            }
        }
        while i < n
            invariant
                n == self.messages@.len(),
                i <= n,
                pred == window_pred(channel_ids@, since as int),
                matching@ == self.messages@.take(i as int).filter(pred),
            decreases n - i,
        {
            proof {
                crate::repo::lemma_filter_take_succ(self.messages@, pred, i as int);
            }
            let m = &self.messages[i];
            if contains_channel(channel_ids, m.channel_id) && m.date >= since
                && m.text.as_str().unicode_len() > MIN_SUMMARY_TEXT_CHARS {
                matching.push(m.duplicate());
            }
            i = i + 1;
        }
        proof {
            assert(self.messages@.take(n as int) =~= self.messages@);
        }
        let ghost win = matching@;
        let r = take_top_by_date(matching, limit);
        proof {
            assert forall|k: int| 0 <= k < r@.len() implies appears_in(#[trigger] r@[k], win) by {}
        }
        r
    }
}

/// Whether the id is among the queried channels.
fn contains_channel(channel_ids: &Vec<i64>, channel_id: i64) -> (r: bool)
    ensures
        r == channel_ids@.contains(channel_id),
{
    let n = channel_ids.len();
    let mut i: usize = 0;
    while i < n
        invariant
            n == channel_ids@.len(),
            i <= n,
            forall|k: int| 0 <= k < i ==> channel_ids@[k] != channel_id,
        decreases n - i,
    {
        if channel_ids[i] == channel_id {
            return true;
        }
        i = i + 1;
    }
    false
}

} // verus!
