//! The subscription / message / summarize-state / user store.
//!
//! The store is the single source of truth for the pipeline: rows are keyed,
//! and every write is an upsert on its key, so duplicate writes are absorbed
//! without explicit locking. `wf` states the key-uniqueness invariants that
//! every constructor establishes and every method preserves.

use vstd::prelude::*;

verus! {

/// One user's subscription to one channel. Unique per (user_id, channel_id).
/// `channel_handle` is a cached denormalization of the channel's current
/// public handle and may go stale if the channel renames.
pub struct Subscription {
    pub user_id: i64,
    pub channel_id: i64,
    pub channel_handle: String,
    pub subscribed_at: i64,
}

/// One ingested channel post. Unique per (channel_id, message_id); ingestion
/// upserts on that key, so re-delivery of the same post is idempotent.
pub struct StoredMessage {
    pub channel_id: i64,
    pub message_id: i32,
    pub text: String,
    pub date: i64,
}

/// When a user last ran a summary; one row per user.
pub struct SummarizeState {
    pub user_id: i64,
    pub last_summarized_at: i64,
}

/// Access-control entry: a user absent from the store, or present with
/// `allowed == false`, is blocked from all commands.
pub struct User {
    pub telegram_id: i64,
    pub allowed: bool,
}

impl Subscription {
    /// A field-for-field copy.
    pub fn duplicate(&self) -> (r: Subscription)
        ensures
            r == *self,
    {
        Subscription {
            user_id: self.user_id,
            channel_id: self.channel_id,
            channel_handle: self.channel_handle.clone(),
            subscribed_at: self.subscribed_at,
        }
    }
}

impl StoredMessage {
    /// A field-for-field copy.
    pub fn duplicate(&self) -> (r: StoredMessage)
        ensures
            r == *self,
    {
        StoredMessage {
            channel_id: self.channel_id,
            message_id: self.message_id,
            text: self.text.clone(),
            date: self.date,
        }
    }
}

pub open spec fn sub_key_matches(s: Subscription, user_id: i64, channel_id: i64) -> bool {
    s.user_id == user_id && s.channel_id == channel_id
}

pub open spec fn unique_sub_keys(ss: Seq<Subscription>) -> bool {
    forall|i: int, j: int|
        0 <= i < j < ss.len() ==> !sub_key_matches(
            #[trigger] ss[i],
            #[trigger] ss[j].user_id,
            ss[j].channel_id,
        )
}

pub open spec fn has_subscription(ss: Seq<Subscription>, user_id: i64, channel_id: i64) -> bool {
    exists|i: int| 0 <= i < ss.len() && sub_key_matches(#[trigger] ss[i], user_id, channel_id)
}

/// `ss2` is `ss` after an upsert of `sub` on its (user_id, channel_id) key:
/// the matching row is replaced if one exists, else `sub` is appended.
pub open spec fn upserted_subscription(
    ss: Seq<Subscription>,
    ss2: Seq<Subscription>,
    sub: Subscription,
) -> bool {
    if has_subscription(ss, sub.user_id, sub.channel_id) {
        exists|i: int|
            0 <= i < ss.len() && sub_key_matches(#[trigger] ss[i], sub.user_id, sub.channel_id)
                && ss2 == ss.update(i, sub)
    } else {
        ss2 == ss.push(sub)
    }
}

pub open spec fn msg_key_matches(m: StoredMessage, channel_id: i64, message_id: i32) -> bool {
    m.channel_id == channel_id && m.message_id == message_id
}

pub open spec fn unique_msg_keys(ms: Seq<StoredMessage>) -> bool {
    forall|i: int, j: int|
        0 <= i < j < ms.len() ==> !msg_key_matches(
            #[trigger] ms[i],
            #[trigger] ms[j].channel_id,
            ms[j].message_id,
        )
}

pub open spec fn has_message(ms: Seq<StoredMessage>, channel_id: i64, message_id: i32) -> bool {
    exists|i: int| 0 <= i < ms.len() && msg_key_matches(#[trigger] ms[i], channel_id, message_id)
}

/// `ms2` is `ms` after an upsert of `msg` on its (channel_id, message_id) key.
pub open spec fn upserted_message(
    ms: Seq<StoredMessage>,
    ms2: Seq<StoredMessage>,
    msg: StoredMessage,
) -> bool {
    if has_message(ms, msg.channel_id, msg.message_id) {
        exists|i: int|
            0 <= i < ms.len() && msg_key_matches(#[trigger] ms[i], msg.channel_id, msg.message_id)
                && ms2 == ms.update(i, msg)
    } else {
        ms2 == ms.push(msg)
    }
}

pub open spec fn unique_state_keys(ts: Seq<SummarizeState>) -> bool {
    forall|i: int, j: int|
        0 <= i < j < ts.len() ==> (#[trigger] ts[i]).user_id != (#[trigger] ts[j]).user_id
}

pub open spec fn unique_user_keys(us: Seq<User>) -> bool {
    forall|i: int, j: int|
        0 <= i < j < us.len() ==> (#[trigger] us[i]).telegram_id != (#[trigger] us[j]).telegram_id
}

/// The rows of `ss` that belong to `user_id`, in insertion order.
pub open spec fn user_subs(ss: Seq<Subscription>, user_id: i64) -> Seq<Subscription> {
    ss.filter(|s: Subscription| s.user_id == user_id)
}

/// The rows of `ss` that watch `channel_id`, in insertion order.
pub open spec fn channel_subs(ss: Seq<Subscription>, channel_id: i64) -> Seq<Subscription> {
    ss.filter(|s: Subscription| s.channel_id == channel_id)
}

/// The user ids subscribed to `channel_id`, in insertion order.
pub open spec fn channel_subscriber_ids(ss: Seq<Subscription>, channel_id: i64) -> Seq<i64> {
    channel_subs(ss, channel_id).map_values(|s: Subscription| s.user_id)
}

/// Whether `user_id` is present and allowed.
pub open spec fn user_allowed(us: Seq<User>, user_id: i64) -> bool {
    exists|i: int|
        0 <= i < us.len() && (#[trigger] us[i]).telegram_id == user_id && us[i].allowed
}

/// How many days back the summarize window reaches for a user with no prior
/// summarize record.
pub const DEFAULT_SUMMARY_WINDOW_SECS: i64 = 604800;

/// The in-memory store.
pub struct Repo {
    pub subscriptions: Vec<Subscription>,
    pub messages: Vec<StoredMessage>,
    pub summarize_state: Vec<SummarizeState>,
    pub users: Vec<User>,
}

/// Replacing a row by one with the same key keeps the keys unique and is the
/// upsert relation.
proof fn lemma_msg_update_wf(ms: Seq<StoredMessage>, ms2: Seq<StoredMessage>, msg: StoredMessage, i: int)
    requires
        unique_msg_keys(ms),
        0 <= i < ms.len(),
        msg_key_matches(ms[i], msg.channel_id, msg.message_id),
        ms2 == ms.update(i, msg),
    ensures
        unique_msg_keys(ms2),
        upserted_message(ms, ms2, msg),
{
    assert forall|ii: int, jj: int| 0 <= ii < jj < ms2.len() implies !msg_key_matches(
        #[trigger] ms2[ii],
        #[trigger] ms2[jj].channel_id,
        ms2[jj].message_id,
    ) by {
        assert(!msg_key_matches(ms[ii], ms[jj].channel_id, ms[jj].message_id));
    }
    assert(has_message(ms, msg.channel_id, msg.message_id));
}

/// Appending a row with a fresh key keeps the keys unique and is the upsert
/// relation.
proof fn lemma_msg_push_wf(ms: Seq<StoredMessage>, ms2: Seq<StoredMessage>, msg: StoredMessage)
    requires
        unique_msg_keys(ms),
        forall|k: int|
            0 <= k < ms.len() ==> !msg_key_matches(#[trigger] ms[k], msg.channel_id, msg.message_id),
        ms2 == ms.push(msg),
    ensures
        unique_msg_keys(ms2),
        upserted_message(ms, ms2, msg),
{
    let n = ms.len() as int;
    assert forall|ii: int, jj: int| 0 <= ii < jj < ms2.len() implies !msg_key_matches(
        #[trigger] ms2[ii],
        #[trigger] ms2[jj].channel_id,
        ms2[jj].message_id,
    ) by {
        if jj < n {
            assert(!msg_key_matches(ms[ii], ms[jj].channel_id, ms[jj].message_id));
        } else {
            assert(!msg_key_matches(ms[ii], msg.channel_id, msg.message_id));
        }
    }
    assert(!has_message(ms, msg.channel_id, msg.message_id));
}

/// Replacing a subscription row on its own key keeps the keys unique and is
/// the upsert relation.
proof fn lemma_sub_update_wf(ss: Seq<Subscription>, ss2: Seq<Subscription>, sub: Subscription, i: int)
    requires
        unique_sub_keys(ss),
        0 <= i < ss.len(),
        sub_key_matches(ss[i], sub.user_id, sub.channel_id),
        ss2 == ss.update(i, sub),
    ensures
        unique_sub_keys(ss2),
        upserted_subscription(ss, ss2, sub),
{
    assert forall|ii: int, jj: int| 0 <= ii < jj < ss2.len() implies !sub_key_matches(
        #[trigger] ss2[ii],
        #[trigger] ss2[jj].user_id,
        ss2[jj].channel_id,
    ) by {
        assert(!sub_key_matches(ss[ii], ss[jj].user_id, ss[jj].channel_id));
    }
    assert(has_subscription(ss, sub.user_id, sub.channel_id));
}

/// Appending a subscription with a fresh key keeps the keys unique and is the
/// upsert relation.
proof fn lemma_sub_push_wf(ss: Seq<Subscription>, ss2: Seq<Subscription>, sub: Subscription)
    requires
        unique_sub_keys(ss),
        forall|k: int|
            0 <= k < ss.len() ==> !sub_key_matches(#[trigger] ss[k], sub.user_id, sub.channel_id),
        ss2 == ss.push(sub),
    ensures
        unique_sub_keys(ss2),
        upserted_subscription(ss, ss2, sub),
{
    let n = ss.len() as int;
    assert forall|ii: int, jj: int| 0 <= ii < jj < ss2.len() implies !sub_key_matches(
        #[trigger] ss2[ii],
        #[trigger] ss2[jj].user_id,
        ss2[jj].channel_id,
    ) by {
        if jj < n {
            assert(!sub_key_matches(ss[ii], ss[jj].user_id, ss[jj].channel_id));
        } else {
            assert(!sub_key_matches(ss[ii], sub.user_id, sub.channel_id));
        }
    }
    assert(!has_subscription(ss, sub.user_id, sub.channel_id));
}

/// Removing a row keeps the keys unique.
proof fn lemma_sub_remove_wf(ss: Seq<Subscription>, ss2: Seq<Subscription>, i: int)
    requires
        unique_sub_keys(ss),
        0 <= i < ss.len(),
        ss2 == ss.remove(i),
    ensures
        unique_sub_keys(ss2),
{
    assert forall|ii: int, jj: int| 0 <= ii < jj < ss2.len() implies !sub_key_matches(
        #[trigger] ss2[ii],
        #[trigger] ss2[jj].user_id,
        ss2[jj].channel_id,
    ) by {
        let oi = if ii < i { ii } else { ii + 1 };
        let oj = if jj < i { jj } else { jj + 1 };
        assert(ss2[ii] == ss[oi]);
        assert(ss2[jj] == ss[oj]);
        assert(!sub_key_matches(ss[oi], ss[oj].user_id, ss[oj].channel_id));
    }
}

/// Filtering a prefix one element longer appends the element when it matches.
pub(crate) proof fn lemma_filter_take_succ<A>(s: Seq<A>, pred: spec_fn(A) -> bool, i: int)
    requires
        0 <= i < s.len(),
    ensures
        s.take(i + 1).filter(pred) == if pred(s[i]) {
            s.take(i).filter(pred).push(s[i])
        } else {
            s.take(i).filter(pred)
        },
{
    reveal(Seq::filter);
    assert(s.take(i + 1).drop_last() =~= s.take(i));
    assert(s.take(i + 1).last() == s[i]);
}

impl Repo {
    /// All four key-uniqueness invariants hold.
    pub open spec fn wf(&self) -> bool {
        &&& unique_sub_keys(self.subscriptions@)
        &&& unique_msg_keys(self.messages@)
        &&& unique_state_keys(self.summarize_state@)
        &&& unique_user_keys(self.users@)
    }

    /// An empty store.
    pub fn new() -> (r: Repo)
        ensures
            r.wf(),
            r.subscriptions@.len() == 0,
            r.messages@.len() == 0,
            r.summarize_state@.len() == 0,
            r.users@.len() == 0,
    {
        Repo {
            subscriptions: Vec::new(),
            messages: Vec::new(),
            summarize_state: Vec::new(),
            users: Vec::new(),
        }
    }

    /// Upsert a message on (channel_id, message_id). Re-delivery of the same
    /// post replaces the row rather than adding one.
    pub fn store_message(&mut self, msg: StoredMessage)
        requires
            old(self).wf(),
        ensures
            final(self).wf(),
            upserted_message(old(self).messages@, final(self).messages@, msg),
            final(self).subscriptions@ == old(self).subscriptions@,
            final(self).summarize_state@ == old(self).summarize_state@,
            final(self).users@ == old(self).users@,
    {
        let n = self.messages.len();
        let mut i: usize = 0;
        while i < n
            invariant
                old(self) == self,
                old(self).wf(),
                n == self.messages@.len(),
                i <= n,
                forall|k: int|
                    0 <= k < i ==> !msg_key_matches(
                        #[trigger] self.messages@[k],
                        msg.channel_id,
                        msg.message_id,
                    ),
            decreases n - i,
        {
            if self.messages[i].channel_id == msg.channel_id && self.messages[i].message_id
                == msg.message_id {
                let ghost ms = self.messages@;
                self.messages[i] = msg;
                proof {
                    lemma_msg_update_wf(ms, self.messages@, msg, i as int);
                }
                return ;
            }
            i = i + 1;
        }
        let ghost ms = self.messages@;
        self.messages.push(msg);
        proof {
            lemma_msg_push_wf(ms, self.messages@, msg);
        }
    }

    /// Upsert a subscription on (user_id, channel_id).
    pub fn add_subscription(&mut self, sub: Subscription)
        requires
            old(self).wf(),
        ensures
            final(self).wf(),
            upserted_subscription(old(self).subscriptions@, final(self).subscriptions@, sub),
            final(self).messages@ == old(self).messages@,
            final(self).summarize_state@ == old(self).summarize_state@,
            final(self).users@ == old(self).users@,
    {
        let n = self.subscriptions.len();
        let mut i: usize = 0;
        while i < n
            invariant
                old(self) == self,
                old(self).wf(),
                n == self.subscriptions@.len(),
                i <= n,
                forall|k: int|
                    0 <= k < i ==> !sub_key_matches(
                        #[trigger] self.subscriptions@[k],
                        sub.user_id,
                        sub.channel_id,
                    ),
            decreases n - i,
        {
            if self.subscriptions[i].user_id == sub.user_id && self.subscriptions[i].channel_id
                == sub.channel_id {
                let ghost ss = self.subscriptions@;
                self.subscriptions[i] = sub;
                proof {
                    lemma_sub_update_wf(ss, self.subscriptions@, sub, i as int);
                }
                return ;
            }
            i = i + 1;
        }
        let ghost ss = self.subscriptions@;
        self.subscriptions.push(sub);
        proof {
            lemma_sub_push_wf(ss, self.subscriptions@, sub);
        }
    }

    /// Delete the first subscription of `user_id` whose cached handle equals
    /// `channel_handle`; report whether a row was removed.
    pub fn remove_subscription_by_handle(&mut self, user_id: i64, channel_handle: &str) -> (removed:
        bool)
        requires
            old(self).wf(),
        ensures
            final(self).wf(),
            removed == exists|i: int|
                0 <= i < old(self).subscriptions@.len() && (#[trigger] old(
                    self,
                ).subscriptions@[i]).user_id == user_id && old(self).subscriptions@[i].channel_handle@
                    == channel_handle@,
            removed ==> exists|i: int|
                {
                    &&& 0 <= i < old(self).subscriptions@.len()
                    &&& (#[trigger] old(self).subscriptions@[i]).user_id == user_id
                    &&& old(self).subscriptions@[i].channel_handle@ == channel_handle@
                    &&& forall|j: int|
                        0 <= j < i ==> !((#[trigger] old(self).subscriptions@[j]).user_id == user_id
                            && old(self).subscriptions@[j].channel_handle@ == channel_handle@)
                    &&& final(self).subscriptions@ == old(self).subscriptions@.remove(i)
                },
            !removed ==> final(self).subscriptions@ == old(self).subscriptions@,
            final(self).messages@ == old(self).messages@,
            final(self).summarize_state@ == old(self).summarize_state@,
            final(self).users@ == old(self).users@,
    {
        let n = self.subscriptions.len();
        let mut i: usize = 0;
        while i < n
            invariant
                old(self) == self,
                old(self).wf(),
                n == self.subscriptions@.len(),
                i <= n,
                forall|k: int|
                    0 <= k < i ==> !((#[trigger] self.subscriptions@[k]).user_id == user_id
                        && self.subscriptions@[k].channel_handle@ == channel_handle@),
            decreases n - i,
        {
            if self.subscriptions[i].user_id == user_id && crate::utf16::str_eq(
                self.subscriptions[i].channel_handle.as_str(),
                channel_handle,
            ) {
                let ghost ss = self.subscriptions@;
                self.subscriptions.remove(i);
                proof {
                    lemma_sub_remove_wf(ss, self.subscriptions@, i as int);
                }
                return true;
            }
            i = i + 1;
        }
        false
    }

    /// Delete the subscription of `user_id` to `channel_id`; report whether a
    /// row was removed.
    pub fn remove_subscription(&mut self, user_id: i64, channel_id: i64) -> (removed: bool)
        requires
            old(self).wf(),
        ensures
            final(self).wf(),
            removed == has_subscription(old(self).subscriptions@, user_id, channel_id),
            removed ==> exists|i: int|
                {
                    &&& 0 <= i < old(self).subscriptions@.len()
                    &&& sub_key_matches(#[trigger] old(self).subscriptions@[i], user_id, channel_id)
                    &&& final(self).subscriptions@ == old(self).subscriptions@.remove(i)
                },
            !removed ==> final(self).subscriptions@ == old(self).subscriptions@,
            !has_subscription(final(self).subscriptions@, user_id, channel_id),
            final(self).messages@ == old(self).messages@,
            final(self).summarize_state@ == old(self).summarize_state@,
            final(self).users@ == old(self).users@,
    {
        let n = self.subscriptions.len();
        let mut i: usize = 0;
        while i < n
            invariant
                old(self) == self,
                old(self).wf(),
                n == self.subscriptions@.len(),
                i <= n,
                forall|k: int|
                    0 <= k < i ==> !sub_key_matches(
                        #[trigger] self.subscriptions@[k],
                        user_id,
                        channel_id,
                    ),
            decreases n - i,
        {
            if self.subscriptions[i].user_id == user_id && self.subscriptions[i].channel_id
                == channel_id {
                self.subscriptions.remove(i);
                proof {
                    lemma_sub_remove_wf(old(self).subscriptions@, self.subscriptions@, i as int);
                    let ss = old(self).subscriptions@;
                    assert forall|k: int|
                        0 <= k < final(self).subscriptions@.len() implies !sub_key_matches(
                        #[trigger] final(self).subscriptions@[k],
                        user_id,
                        channel_id,
                    ) by {
                        if k < i {
                            assert(final(self).subscriptions@[k] == ss[k]);
                        } else {
                            assert(final(self).subscriptions@[k] == ss[k + 1]);
                        }
                    }
                }
                return true;
            }
            i = i + 1;
        }
        false
    }

    /// Point every subscription row of `channel_id` at a fresh handle (the
    /// self-healing path after a channel rename).
    pub fn update_subscription_handle(&mut self, channel_id: i64, new_handle: &str)
        requires
            old(self).wf(),
        ensures
            final(self).wf(),
            final(self).subscriptions@.len() == old(self).subscriptions@.len(),
            forall|i: int|
                0 <= i < old(self).subscriptions@.len() ==> {
                    let s = #[trigger] old(self).subscriptions@[i];
                    let t = final(self).subscriptions@[i];
                    if s.channel_id == channel_id {
                        t.user_id == s.user_id && t.channel_id == s.channel_id && t.channel_handle@
                            == new_handle@ && t.subscribed_at == s.subscribed_at
                    } else {
                        t == s
                    }
                },
            final(self).messages@ == old(self).messages@,
            final(self).summarize_state@ == old(self).summarize_state@,
            final(self).users@ == old(self).users@,
    {
        let n = self.subscriptions.len();
        let mut i: usize = 0;
        while i < n
            invariant
                n == self.subscriptions@.len(),
                n == old(self).subscriptions@.len(),
                i <= n,
                self.messages@ == old(self).messages@,
                self.summarize_state@ == old(self).summarize_state@,
                self.users@ == old(self).users@,
                forall|k: int| i <= k < n ==> self.subscriptions@[k] == old(self).subscriptions@[k],
                forall|k: int|
                    0 <= k < i ==> {
                        let s = #[trigger] old(self).subscriptions@[k];
                        let t = self.subscriptions@[k];
                        if s.channel_id == channel_id {
                            t.user_id == s.user_id && t.channel_id == s.channel_id
                                && t.channel_handle@ == new_handle@ && t.subscribed_at
                                == s.subscribed_at
                        } else {
                            t == s
                        }
                    },
            decreases n - i,
        {
            if self.subscriptions[i].channel_id == channel_id {
                let updated = Subscription {
                    user_id: self.subscriptions[i].user_id,
                    channel_id: self.subscriptions[i].channel_id,
                    channel_handle: new_handle.to_owned(),
                    subscribed_at: self.subscriptions[i].subscribed_at,
                };
                self.subscriptions[i] = updated;
            }
            i = i + 1;
        }
        proof {
            assert forall|i: int, j: int|
                0 <= i < j < final(self).subscriptions@.len() implies !sub_key_matches(
                #[trigger] final(self).subscriptions@[i],
                #[trigger] final(self).subscriptions@[j].user_id,
                final(self).subscriptions@[j].channel_id,
            ) by {
                assert(!sub_key_matches(
                    old(self).subscriptions@[i],
                    old(self).subscriptions@[j].user_id,
                    old(self).subscriptions@[j].channel_id,
                ));
            }
        }
    }

    /// All subscriptions of `user_id`, in insertion order.
    pub fn get_user_subscriptions(&self, user_id: i64) -> (r: Vec<Subscription>)
        ensures
            r@ == user_subs(self.subscriptions@, user_id),
    {
        let n = self.subscriptions.len();
        let mut r: Vec<Subscription> = Vec::new();
        let mut i: usize = 0;
        proof {
            assert(self.subscriptions@.take(0).filter(|s: Subscription| s.user_id == user_id)
                =~= Seq::<Subscription>::empty()) by {
                reveal(Seq::filter);
            }
        }
        while i < n
            invariant
                n == self.subscriptions@.len(),
                i <= n,
                r@ == self.subscriptions@.take(i as int).filter(
                    |s: Subscription| s.user_id == user_id,
                ),
            decreases n - i,
        {
            proof {
                lemma_filter_take_succ(
                    self.subscriptions@,
                    |s: Subscription| s.user_id == user_id,
                    i as int,
                );
            }
            if self.subscriptions[i].user_id == user_id {
                r.push(self.subscriptions[i].duplicate());
            }
            i = i + 1;
        }
        proof {
            assert(self.subscriptions@.take(n as int) =~= self.subscriptions@);
        }
        r
    }

    /// Whether any user is subscribed to `channel_id`.
    pub fn is_subscribed(&self, channel_id: i64) -> (r: bool)
        ensures
            r == exists|i: int|
                0 <= i < self.subscriptions@.len() && (#[trigger] self.subscriptions@[i]).channel_id
                    == channel_id,
    {
        let n = self.subscriptions.len();
        let mut i: usize = 0;
        while i < n
            invariant
                n == self.subscriptions@.len(),
                i <= n,
                forall|k: int|
                    0 <= k < i ==> (#[trigger] self.subscriptions@[k]).channel_id != channel_id,
            decreases n - i,
        {
            if self.subscriptions[i].channel_id == channel_id {
                return true;
            }
            i = i + 1;
        }
        false
    }

    /// Whether any user is subscribed to `channel_id` (alias kept for the
    /// relay path).
    pub fn has_subscribers(&self, channel_id: i64) -> (r: bool)
        ensures
            r == exists|i: int|
                0 <= i < self.subscriptions@.len() && (#[trigger] self.subscriptions@[i]).channel_id
                    == channel_id,
    {
        self.is_subscribed(channel_id)
    }

    /// The ids of all users subscribed to `channel_id`, in insertion order.
    pub fn get_channel_subscribers(&self, channel_id: i64) -> (r: Vec<i64>)
        ensures
            r@ == channel_subscriber_ids(self.subscriptions@, channel_id),
    {
        let n = self.subscriptions.len();
        let mut r: Vec<i64> = Vec::new();
        let mut i: usize = 0;
        proof {
            assert(self.subscriptions@.take(0).filter(|s: Subscription| s.channel_id == channel_id)
                =~= Seq::<Subscription>::empty()) by {
                reveal(Seq::filter);
            }
            assert(channel_subs(self.subscriptions@.take(0), channel_id).map_values(
                |s: Subscription| s.user_id,
            ) =~= Seq::<i64>::empty());
        }
        while i < n
            invariant
                n == self.subscriptions@.len(),
                i <= n,
                r@ == channel_subscriber_ids(self.subscriptions@.take(i as int), channel_id),
            decreases n - i,
        {
            proof {
                lemma_filter_take_succ(
                    self.subscriptions@,
                    |s: Subscription| s.channel_id == channel_id,
                    i as int,
                );
                if self.subscriptions@[i as int].channel_id == channel_id {
                    assert(channel_subs(self.subscriptions@.take(i + 1), channel_id).map_values(
                        |s: Subscription| s.user_id,
                    ) =~= channel_subscriber_ids(self.subscriptions@.take(i as int), channel_id).push(
                        self.subscriptions@[i as int].user_id,
                    ));
                } else {
                    assert(channel_subscriber_ids(self.subscriptions@.take(i + 1), channel_id)
                        == channel_subscriber_ids(self.subscriptions@.take(i as int), channel_id));
                }
            }
            if self.subscriptions[i].channel_id == channel_id {
                r.push(self.subscriptions[i].user_id);
            }
            i = i + 1;
        }
        proof {
            assert(self.subscriptions@.take(n as int) =~= self.subscriptions@);
        }
        r
    }

    /// Whether `user_id` is subscribed to `channel_id`.
    pub fn is_user_subscribed(&self, user_id: i64, channel_id: i64) -> (r: bool)
        ensures
            r == has_subscription(self.subscriptions@, user_id, channel_id),
    {
        let n = self.subscriptions.len();
        let mut i: usize = 0;
        while i < n
            invariant
                n == self.subscriptions@.len(),
                i <= n,
                forall|k: int|
                    0 <= k < i ==> !sub_key_matches(
                        #[trigger] self.subscriptions@[k],
                        user_id,
                        channel_id,
                    ),
            decreases n - i,
        {
            if self.subscriptions[i].user_id == user_id && self.subscriptions[i].channel_id
                == channel_id {
                return true;
            }
            i = i + 1;
        }
        false
    }

    /// The distinct channel ids that anyone is subscribed to, in first-seen
    /// order.
    pub fn get_subscribed_channels(&self) -> (r: Vec<i64>)
        ensures
            forall|c: i64|
                #[trigger] r@.contains(c) <==> exists|i: int|
                    0 <= i < self.subscriptions@.len() && (#[trigger] self.subscriptions@[i]).channel_id
                        == c,
            r@.no_duplicates(),
    {
        let n = self.subscriptions.len();
        let mut r: Vec<i64> = Vec::new();
        let mut i: usize = 0;
        while i < n
            invariant
                n == self.subscriptions@.len(),
                i <= n,
                forall|c: i64|
                    #[trigger] r@.contains(c) <==> exists|k: int|
                        0 <= k < i && (#[trigger] self.subscriptions@[k]).channel_id == c,
                r@.no_duplicates(),
            decreases n - i,
        {
            let c = self.subscriptions[i].channel_id;
            let mut seen = false;
            let mut j: usize = 0;
            let m = r.len();
            while j < m
                invariant
                    m == r@.len(),
                    j <= m,
                    seen == exists|k: int| 0 <= k < j && r@[k] == c,
                decreases m - j,
            {
                if r[j] == c {
                    seen = true;
                }
                j = j + 1;
            }
            proof {
                assert(seen == r@.contains(c)) by {
                    if r@.contains(c) {
                        let k = choose|k: int| 0 <= k < r@.len() && r@[k] == c;
                        assert(0 <= k < m && r@[k] == c);
                    }
                }
            }
            let ghost old_r = r@;
            if !seen {
                r.push(c);
            }
            proof {
                assert forall|cc: i64| #[trigger] r@.contains(cc) implies exists|k: int|
                    0 <= k < i + 1 && (#[trigger] self.subscriptions@[k]).channel_id == cc by {
                    let k = choose|k: int| 0 <= k < r@.len() && r@[k] == cc;
                    if k < old_r.len() {
                        assert(old_r.contains(cc)) by {
                            assert(old_r[k] == cc);
                        }
                    } else {
                        assert(cc == c);
                        assert(self.subscriptions@[i as int].channel_id == cc);
                    }
                }
                assert forall|cc: i64|
                    (exists|k: int|
                        0 <= k < i + 1 && (#[trigger] self.subscriptions@[k]).channel_id
                            == cc) implies #[trigger] r@.contains(cc) by {
                    let k = choose|k: int|
                        0 <= k < i + 1 && (#[trigger] self.subscriptions@[k]).channel_id == cc;
                    if k < i {
                        assert(old_r.contains(cc));
                        let kk = choose|kk: int| 0 <= kk < old_r.len() && old_r[kk] == cc;
                        assert(r@[kk] == cc);
                    } else {
                        if seen {
                            assert(old_r.contains(c));
                            let kk = choose|kk: int| 0 <= kk < old_r.len() && old_r[kk] == c;
                            assert(r@[kk] == cc);
                        } else {
                            assert(r@[r@.len() - 1] == cc);
                        }
                    }
                }
                if !seen {
                    assert forall|ii: int, jj: int|
                        0 <= ii < jj < r@.len() implies r@[ii] != r@[jj] by {
                        if jj < old_r.len() {
                            assert(old_r[ii] != old_r[jj]);
                        } else {
                            assert(r@[jj] == c);
                            if r@[ii] == c {
                                assert(old_r.contains(c)) by {
                                    assert(old_r[ii] == c);
                                }
                            }
                        }
                    }
                }
            }
            i = i + 1;
        }
        r
    }

    /// The lower bound of the next summarize window: the user's recorded
    /// checkpoint, or `now` minus a default window when none exists.
    pub fn get_last_summarize_time(&self, user_id: i64, now: i64) -> (r: i64)
        requires
            self.wf(),
            i64::MIN + DEFAULT_SUMMARY_WINDOW_SECS <= now,
        ensures
            r == spec_last_summarize_time(self.summarize_state@, user_id, now),
    {
        let n = self.summarize_state.len();
        let mut i: usize = 0;
        while i < n
            invariant
                self.wf(),
                n == self.summarize_state@.len(),
                i <= n,
                forall|k: int|
                    0 <= k < i ==> (#[trigger] self.summarize_state@[k]).user_id != user_id,
            decreases n - i,
        {
            if self.summarize_state[i].user_id == user_id {
                proof {
                    let ts = self.summarize_state@;
                    let k = choose|k: int| 0 <= k < ts.len() && (#[trigger] ts[k]).user_id == user_id;
                    if k < i as int {
                        assert(ts[k].user_id != ts[i as int].user_id);
                    } else if k > i as int {
                        assert(ts[i as int].user_id != ts[k].user_id);
                    }
                }
                return self.summarize_state[i].last_summarized_at;
            }
            i = i + 1;
        }
        now - DEFAULT_SUMMARY_WINDOW_SECS
    }

    /// Record `now` as the user's summarize checkpoint (upsert on user_id).
    pub fn update_summarize_time(&mut self, user_id: i64, now: i64)
        requires
            old(self).wf(),
        ensures
            final(self).wf(),
            forall|u: i64, t: i64|
                u != user_id ==> spec_last_summarize_time(final(self).summarize_state@, u, t)
                    == spec_last_summarize_time(old(self).summarize_state@, u, t),
            has_state(final(self).summarize_state@, user_id),
            state_time(final(self).summarize_state@, user_id) == now,
            final(self).subscriptions@ == old(self).subscriptions@,
            final(self).messages@ == old(self).messages@,
            final(self).users@ == old(self).users@,
    {
        let n = self.summarize_state.len();
        let mut i: usize = 0;
        while i < n
            invariant
                old(self) == self,
                old(self).wf(),
                n == self.summarize_state@.len(),
                i <= n,
                forall|k: int|
                    0 <= k < i ==> (#[trigger] self.summarize_state@[k]).user_id != user_id,
            decreases n - i,
        {
            if self.summarize_state[i].user_id == user_id {
                self.summarize_state[i] = SummarizeState { user_id, last_summarized_at: now };
                proof {
                    lemma_state_update_frame(
                        old(self).summarize_state@,
                        final(self).summarize_state@,
                        SummarizeState { user_id, last_summarized_at: now },
                        i as int,
                    );
                }
                return ;
            }
            i = i + 1;
        }
        self.summarize_state.push(SummarizeState { user_id, last_summarized_at: now });
        proof {
            lemma_state_push_frame(
                old(self).summarize_state@,
                final(self).summarize_state@,
                SummarizeState { user_id, last_summarized_at: now },
            );
        }
    }

    /// Whether the user is present in the allow-list and allowed.
    pub fn is_user_allowed(&self, user_id: i64) -> (r: bool)
        ensures
            r == user_allowed(self.users@, user_id),
    {
        let n = self.users.len();
        let mut i: usize = 0;
        while i < n
            invariant
                n == self.users@.len(),
                i <= n,
                forall|k: int|
                    0 <= k < i ==> !((#[trigger] self.users@[k]).telegram_id == user_id
                        && self.users@[k].allowed),
            decreases n - i,
        {
            if self.users[i].telegram_id == user_id && self.users[i].allowed {
                return true;
            }
            i = i + 1;
        }
        false
    }

    /// Add a user to the allow-list, or flip an existing user's flag
    /// (upsert on telegram_id).
    pub fn set_user_allowed(&mut self, user_id: i64, allowed: bool)
        requires
            old(self).wf(),
        ensures
            final(self).wf(),
            user_allowed(final(self).users@, user_id) == allowed,
            forall|u: i64|
                u != user_id ==> user_allowed(final(self).users@, u) == user_allowed(
                    old(self).users@,
                    u,
                ),
            final(self).subscriptions@ == old(self).subscriptions@,
            final(self).messages@ == old(self).messages@,
            final(self).summarize_state@ == old(self).summarize_state@,
    {
        let n = self.users.len();
        let mut i: usize = 0;
        while i < n
            invariant
                old(self) == self,
                old(self).wf(),
                n == self.users@.len(),
                i <= n,
                forall|k: int| 0 <= k < i ==> (#[trigger] self.users@[k]).telegram_id != user_id,
            decreases n - i,
        {
            if self.users[i].telegram_id == user_id {
                self.users[i] = User { telegram_id: user_id, allowed };
                proof {
                    lemma_user_flag_frame(old(self).users@, final(self).users@, user_id, i as int);
                }
                return ;
            }
            i = i + 1;
        }
        self.users.push(User { telegram_id: user_id, allowed });
        proof {
            lemma_user_push_frame(old(self).users@, final(self).users@, user_id);
        }
    }
}

/// Whether a summarize checkpoint exists for the user.
pub open spec fn has_state(ts: Seq<SummarizeState>, user_id: i64) -> bool {
    exists|i: int| 0 <= i < ts.len() && (#[trigger] ts[i]).user_id == user_id
}

/// The recorded checkpoint of the user (the first matching row).
pub open spec fn state_time(ts: Seq<SummarizeState>, user_id: i64) -> i64 {
    let i = choose|i: int| 0 <= i < ts.len() && (#[trigger] ts[i]).user_id == user_id;
    ts[i].last_summarized_at
}

/// The summarize window lower bound: the checkpoint if one exists, else a
/// default window before `now`.
pub open spec fn spec_last_summarize_time(ts: Seq<SummarizeState>, user_id: i64, now: i64) -> int {
    if has_state(ts, user_id) {
        state_time(ts, user_id) as int
    } else {
        now - DEFAULT_SUMMARY_WINDOW_SECS
    }
}

/// Updating one user's row keeps the keys unique, records the new time, and
/// leaves every other user's window unchanged.
proof fn lemma_state_update_frame(
    ts: Seq<SummarizeState>,
    ts2: Seq<SummarizeState>,
    s: SummarizeState,
    i: int,
)
    requires
        unique_state_keys(ts),
        0 <= i < ts.len(),
        ts[i].user_id == s.user_id,
        ts2 == ts.update(i, s),
    ensures
        unique_state_keys(ts2),
        has_state(ts2, s.user_id),
        state_time(ts2, s.user_id) == s.last_summarized_at,
        forall|u: i64, t: i64|
            u != s.user_id ==> spec_last_summarize_time(ts2, u, t) == spec_last_summarize_time(
                ts,
                u,
                t,
            ),
{
    assert(forall|k: int| 0 <= k < ts2.len() ==> (#[trigger] ts2[k]).user_id == ts[k].user_id);
    assert(ts2[i].user_id == s.user_id);
    let k = choose|k: int| 0 <= k < ts2.len() && (#[trigger] ts2[k]).user_id == s.user_id;
    if k != i {
        assert(ts[k].user_id == ts[i].user_id);
        assert(false);
    }
    assert forall|u: i64, t: i64| u != s.user_id implies spec_last_summarize_time(ts2, u, t)
        == spec_last_summarize_time(ts, u, t) by {
        assert(has_state(ts2, u) == has_state(ts, u)) by {
            if has_state(ts2, u) {
                let k2 = choose|k2: int| 0 <= k2 < ts2.len() && (#[trigger] ts2[k2]).user_id == u;
                assert(ts[k2].user_id == u);
            }
            if has_state(ts, u) {
                let k2 = choose|k2: int| 0 <= k2 < ts.len() && (#[trigger] ts[k2]).user_id == u;
                assert(ts2[k2].user_id == u);
            }
        }
        if has_state(ts, u) {
            let k2 = choose|k2: int| 0 <= k2 < ts2.len() && (#[trigger] ts2[k2]).user_id == u;
            assert(k2 != i);
            assert(ts2[k2] == ts[k2]);
            let k3 = choose|k3: int| 0 <= k3 < ts.len() && (#[trigger] ts[k3]).user_id == u;
            if k3 != k2 {
                assert(ts[k3].user_id == ts[k2].user_id);
            }
        }
    }
}

/// Appending a fresh user's row keeps the keys unique, records the new time,
/// and leaves every other user's window unchanged.
proof fn lemma_state_push_frame(ts: Seq<SummarizeState>, ts2: Seq<SummarizeState>, s: SummarizeState)
    requires
        unique_state_keys(ts),
        forall|k: int| 0 <= k < ts.len() ==> (#[trigger] ts[k]).user_id != s.user_id,
        ts2 == ts.push(s),
    ensures
        unique_state_keys(ts2),
        has_state(ts2, s.user_id),
        state_time(ts2, s.user_id) == s.last_summarized_at,
        forall|u: i64, t: i64|
            u != s.user_id ==> spec_last_summarize_time(ts2, u, t) == spec_last_summarize_time(
                ts,
                u,
                t,
            ),
{
    let n = ts.len() as int;
    assert forall|ii: int, jj: int| 0 <= ii < jj < ts2.len() implies (#[trigger] ts2[ii]).user_id
        != (#[trigger] ts2[jj]).user_id by {
        if jj < n {
            assert(ts[ii].user_id != ts[jj].user_id);
        } else {
            assert(ts[ii].user_id != s.user_id);
        }
    }
    assert(ts2[n].user_id == s.user_id);
    let k = choose|k: int| 0 <= k < ts2.len() && (#[trigger] ts2[k]).user_id == s.user_id;
    if k != n {
        assert(ts[k].user_id != s.user_id);
        assert(false);
    }
    assert forall|u: i64, t: i64| u != s.user_id implies spec_last_summarize_time(ts2, u, t)
        == spec_last_summarize_time(ts, u, t) by {
        assert(has_state(ts2, u) == has_state(ts, u)) by {
            if has_state(ts2, u) {
                let k2 = choose|k2: int| 0 <= k2 < ts2.len() && (#[trigger] ts2[k2]).user_id == u;
                assert(k2 < n);
                assert(ts[k2].user_id == u);
            }
            if has_state(ts, u) {
                let k2 = choose|k2: int| 0 <= k2 < ts.len() && (#[trigger] ts[k2]).user_id == u;
                assert(ts2[k2].user_id == u);
            }
        }
        if has_state(ts, u) {
            let k2 = choose|k2: int| 0 <= k2 < ts2.len() && (#[trigger] ts2[k2]).user_id == u;
            assert(k2 < n);
            assert(ts2[k2] == ts[k2]);
            let k3 = choose|k3: int| 0 <= k3 < ts.len() && (#[trigger] ts[k3]).user_id == u;
            if k3 != k2 {
                assert(ts[k3].user_id == ts[k2].user_id);
            }
        }
    }
}

/// Updating one user's allow flag leaves every other user's unchanged.
proof fn lemma_user_flag_frame(us: Seq<User>, us2: Seq<User>, user_id: i64, i: int)
    requires
        unique_user_keys(us),
        0 <= i < us.len(),
        us[i].telegram_id == user_id,
        us2 == us.update(i, User { telegram_id: user_id, allowed: us2[i].allowed }),
    ensures
        unique_user_keys(us2),
        user_allowed(us2, user_id) == us2[i].allowed,
        forall|u: i64| u != user_id ==> user_allowed(us2, u) == user_allowed(us, u),
{
    assert forall|ii: int, jj: int| 0 <= ii < jj < us2.len() implies (#[trigger] us2[ii]).telegram_id
        != (#[trigger] us2[jj]).telegram_id by {
        assert(us[ii].telegram_id != us[jj].telegram_id);
    }
    if us2[i].allowed {
        assert(user_allowed(us2, user_id)) by {
            assert(us2[i].telegram_id == user_id && us2[i].allowed);
        }
    } else {
        if user_allowed(us2, user_id) {
            let k = choose|k: int|
                0 <= k < us2.len() && (#[trigger] us2[k]).telegram_id == user_id && us2[k].allowed;
            if k != i {
                assert(us[k].telegram_id == us[i].telegram_id);
            }
            assert(false);
        }
    }
    assert forall|u: i64| u != user_id implies user_allowed(us2, u) == user_allowed(us, u) by {
        if user_allowed(us2, u) {
            let k = choose|k: int|
                0 <= k < us2.len() && (#[trigger] us2[k]).telegram_id == u && us2[k].allowed;
            assert(us[k] == us2[k]);
        }
        if user_allowed(us, u) {
            let k = choose|k: int|
                0 <= k < us.len() && (#[trigger] us[k]).telegram_id == u && us[k].allowed;
            assert(us2[k] == us[k]);
        }
    }
}

/// Appending a fresh user's row leaves every other user's flag unchanged.
proof fn lemma_user_push_frame(us: Seq<User>, us2: Seq<User>, user_id: i64)
    requires
        unique_user_keys(us),
        forall|k: int| 0 <= k < us.len() ==> (#[trigger] us[k]).telegram_id != user_id,
        us2.len() == us.len() + 1,
        us2 == us.push(us2[us.len() as int]),
        us2[us.len() as int].telegram_id == user_id,
    ensures
        unique_user_keys(us2),
        user_allowed(us2, user_id) == us2[us.len() as int].allowed,
        forall|u: i64| u != user_id ==> user_allowed(us2, u) == user_allowed(us, u),
{
    let n = us.len() as int;
    assert forall|ii: int, jj: int| 0 <= ii < jj < us2.len() implies (#[trigger] us2[ii]).telegram_id
        != (#[trigger] us2[jj]).telegram_id by {
        if jj < n {
            assert(us[ii].telegram_id != us[jj].telegram_id);
        } else {
            assert(us[ii].telegram_id != user_id);
        }
    }
    if us2[n].allowed {
        assert(us2[n].telegram_id == user_id && us2[n].allowed);
    } else {
        if user_allowed(us2, user_id) {
            let k = choose|k: int|
                0 <= k < us2.len() && (#[trigger] us2[k]).telegram_id == user_id && us2[k].allowed;
            if k < n {
                assert(us[k].telegram_id != user_id);
            }
            assert(false);
        }
    }
    assert forall|u: i64| u != user_id implies user_allowed(us2, u) == user_allowed(us, u) by {
        if user_allowed(us2, u) {
            let k = choose|k: int|
                0 <= k < us2.len() && (#[trigger] us2[k]).telegram_id == u && us2[k].allowed;
            assert(k < n);
            assert(us[k] == us2[k]);
        }
        if user_allowed(us, u) {
            let k = choose|k: int|
                0 <= k < us.len() && (#[trigger] us[k]).telegram_id == u && us[k].allowed;
            assert(us2[k] == us[k]);
        }
    }
}


/// Law: ingesting the same (channel_id, message_id) twice leaves exactly one
/// row for that key — the second upsert replaces rather than adds — and that
/// row carries the latest text and timestamp.
pub proof fn lemma_ingest_idempotent(
    ms0: Seq<StoredMessage>,
    ms1: Seq<StoredMessage>,
    ms2: Seq<StoredMessage>,
    m1: StoredMessage,
    m2: StoredMessage,
)
    requires
        unique_msg_keys(ms0),
        upserted_message(ms0, ms1, m1),
        upserted_message(ms1, ms2, m2),
        m1.channel_id == m2.channel_id,
        m1.message_id == m2.message_id,
    ensures
        unique_msg_keys(ms2),
        ms2.len() == ms1.len(),
        exists|i: int| 0 <= i < ms2.len() && #[trigger] ms2[i] == m2,
{
    let i1: int;
    if has_message(ms0, m1.channel_id, m1.message_id) {
        let i = choose|i: int|
            0 <= i < ms0.len() && msg_key_matches(#[trigger] ms0[i], m1.channel_id, m1.message_id)
                && ms1 == ms0.update(i, m1);
        lemma_msg_update_wf(ms0, ms1, m1, i);
        i1 = i;
    } else {
        assert forall|k: int|
            0 <= k < ms0.len() implies !msg_key_matches(
            #[trigger] ms0[k],
            m1.channel_id,
            m1.message_id,
        ) by {
            if msg_key_matches(ms0[k], m1.channel_id, m1.message_id) {
                assert(has_message(ms0, m1.channel_id, m1.message_id));
            }
        }
        lemma_msg_push_wf(ms0, ms1, m1);
        i1 = ms0.len() as int;
    }
    assert(ms1[i1] == m1);
    assert(has_message(ms1, m2.channel_id, m2.message_id)) by {
        assert(msg_key_matches(ms1[i1], m2.channel_id, m2.message_id));
    }
    let i2 = choose|i: int|
        0 <= i < ms1.len() && msg_key_matches(#[trigger] ms1[i], m2.channel_id, m2.message_id)
            && ms2 == ms1.update(i, m2);
    lemma_msg_update_wf(ms1, ms2, m2, i2);
    assert(ms2[i2] == m2);
}

/// Law: adding the same (user_id, channel_id) subscription twice leaves
/// exactly one row for that key; the second upsert replaces rather than
/// adds.
pub proof fn lemma_subscription_unique(
    ss0: Seq<Subscription>,
    ss1: Seq<Subscription>,
    ss2: Seq<Subscription>,
    s1: Subscription,
    s2: Subscription,
)
    requires
        unique_sub_keys(ss0),
        upserted_subscription(ss0, ss1, s1),
        upserted_subscription(ss1, ss2, s2),
        s1.user_id == s2.user_id,
        s1.channel_id == s2.channel_id,
    ensures
        unique_sub_keys(ss2),
        ss2.len() == ss1.len(),
        exists|i: int| 0 <= i < ss2.len() && #[trigger] ss2[i] == s2,
{
    let i1: int;
    if has_subscription(ss0, s1.user_id, s1.channel_id) {
        let i = choose|i: int|
            0 <= i < ss0.len() && sub_key_matches(#[trigger] ss0[i], s1.user_id, s1.channel_id)
                && ss1 == ss0.update(i, s1);
        lemma_sub_update_wf(ss0, ss1, s1, i);
        i1 = i;
    } else {
        assert forall|k: int|
            0 <= k < ss0.len() implies !sub_key_matches(
            #[trigger] ss0[k],
            s1.user_id,
            s1.channel_id,
        ) by {
            if sub_key_matches(ss0[k], s1.user_id, s1.channel_id) {
                assert(has_subscription(ss0, s1.user_id, s1.channel_id));
            }
        }
        lemma_sub_push_wf(ss0, ss1, s1);
        i1 = ss0.len() as int;
    }
    assert(ss1[i1] == s1);
    assert(has_subscription(ss1, s2.user_id, s2.channel_id)) by {
        assert(sub_key_matches(ss1[i1], s2.user_id, s2.channel_id));
    }
    let i2 = choose|i: int|
        0 <= i < ss1.len() && sub_key_matches(#[trigger] ss1[i], s2.user_id, s2.channel_id)
            && ss2 == ss1.update(i, s2);
    lemma_sub_update_wf(ss1, ss2, s2, i2);
    assert(ss2[i2] == s2);
}

} // verus!
