//! The monitor's command handlers: authorization, subscribing, unsubscribing
//! and listing.
//!
//! Handle resolution and channel joining are transport work: the surrounding
//! application resolves a handle against the chat service and passes the
//! outcome in as a `ChannelIdentity` (or `None` when the handle does not
//! resolve). Everything the handlers decide and persist is verified here.

use vstd::prelude::*;

use crate::repo::{
    Repo, Subscription, has_subscription, sub_key_matches, user_allowed, user_subs,
};
use crate::command::MonitorCommand;

verus! {

/// The most channels one user may be subscribed to at once. The cap is
/// enforced before a new subscription is accepted; re-subscribing to a
/// channel the user already has is allowed at the cap (it adds no row).
pub const MAX_SUBSCRIPTIONS_PER_USER: usize = 30;

/// What can go wrong along the pipeline.
pub enum MonitorError {
    /// The handle does not resolve to any channel.
    NotFound(String),
    /// The channel exposes no public handle; such channels are unsupported.
    EmptyHandle,
    /// The per-user subscription cap was reached.
    SubscriptionLimit(usize),
    /// The user is absent from the allow-list or blocked.
    NotAllowed,
    /// A transport, storage or serialization failure, described in text.
    Internal(String),
    /// A delivery attempt exceeded its time budget.
    Timeout,
}

/// The user-facing text of an error.
pub open spec fn error_text(e: MonitorError) -> Seq<char> {
    match e {
        MonitorError::NotFound(handle) => "Channel not found: @"@ + handle@,
        MonitorError::EmptyHandle => "Private channels not supported"@,
        MonitorError::SubscriptionLimit(n) => "Subscription limit reached (max "@
            + crate::format::dec_digits(n as int) + " channels)"@,
        MonitorError::NotAllowed => "Sorry, you are not allowed to use this bot 🙅. Contact the admin if you want to get the access."@,
        MonitorError::Internal(text) => text@,
        MonitorError::Timeout => "Delivery timed out"@,
    }
}

impl MonitorError {
    /// Render the error as user-facing text.
    pub fn message(self) -> (r: String)
        ensures
            r@ == error_text(self),
    {
        match self {
            MonitorError::NotFound(handle) => {
                let mut s = String::new();
                s.append("Channel not found: @");
                s.append(handle.as_str());
                proof {
                    assert(s@ =~= "Channel not found: @"@ + handle@);
                }
                s
            },
            MonitorError::EmptyHandle => "Private channels not supported".to_owned(),
            MonitorError::SubscriptionLimit(n) => {
                let mut s = String::new();
                s.append("Subscription limit reached (max ");
                let count = crate::format::u64_to_string(n as u64);
                s.append(count.as_str());
                s.append(" channels)");
                proof {
                    assert(s@ =~= "Subscription limit reached (max "@ + crate::format::dec_digits(
                        n as int,
                    ) + " channels)"@);
                }
                s
            },
            MonitorError::NotAllowed => "Sorry, you are not allowed to use this bot 🙅. Contact the admin if you want to get the access.".to_owned(),
            MonitorError::Internal(text) => text,
            MonitorError::Timeout => "Delivery timed out".to_owned(),
        }
    }
}

/// A channel as the chat transport resolves it: its stable id, and what it
/// currently exposes as public handles.
pub struct ChannelIdentity {
    pub channel_id: i64,
    pub username: Option<String>,
    pub usernames: Vec<String>,
}

/// The channel's current handle: the primary username when there is one,
/// else the first of the alternative usernames.
pub open spec fn handle_of(c: ChannelIdentity) -> Option<Seq<char>> {
    match c.username {
        Some(u) => Some(u@),
        None => if c.usernames@.len() > 0 {
            Some(c.usernames@[0]@)
        } else {
            None
        },
    }
}

impl ChannelIdentity {
    /// The channel's current handle, if it exposes any.
    pub fn get_handle(&self) -> (r: Option<String>)
        ensures
            match r {
                Some(h) => handle_of(*self) == Some(h@),
                None => handle_of(*self) is None,
            },
    {
        match &self.username {
            Some(u) => Some(u.clone()),
            None => {
                if self.usernames.len() > 0 {
                    Some(self.usernames[0].clone())
                } else {
                    None
                }
            },
        }
    }
}

/// Whether the command's issuer may run it: Shutdown always may; every other
/// command requires its user to be present and allowed.
pub fn authorize_command(repo: &Repo, cmd: &MonitorCommand) -> (r: bool)
    ensures
        r == match cmd {
            MonitorCommand::Subscribe { user_id, .. } => user_allowed(repo.users@, *user_id),
            MonitorCommand::Unsubscribe { user_id, .. } => user_allowed(repo.users@, *user_id),
            MonitorCommand::ListSubscriptions { user_id } => user_allowed(repo.users@, *user_id),
            MonitorCommand::Summarize { user_id } => user_allowed(repo.users@, *user_id),
            MonitorCommand::Shutdown => true,
        },
{
    match cmd.get_user_id() {
        Some(user_id) => repo.is_user_allowed(user_id),
        None => true,
    }
}

/// The outcome of a successful subscribe.
pub enum SubscribeOutcome {
    /// The user already had this channel; nothing changed.
    AlreadySubscribed,
    /// A subscription row was added; the application should attempt to join
    /// the channel (a join failure is non-fatal).
    Subscribed,
}

/// Subscribe `user_id` to the channel that `channel_handle` resolved to.
///
/// The cap is checked first; then an unresolved handle fails with NotFound;
/// an existing subscription succeeds idempotently without touching the
/// store; otherwise the subscription is persisted with `now` as its
/// timestamp.
pub fn subscribe_to_channel(
    repo: &mut Repo,
    user_id: i64,
    channel_handle: String,
    resolved: Option<ChannelIdentity>,
    now: i64,
) -> (r: Result<SubscribeOutcome, MonitorError>)
    requires
        old(repo).wf(),
    ensures
        final(repo).wf(),
        final(repo).messages@ == old(repo).messages@,
        final(repo).summarize_state@ == old(repo).summarize_state@,
        final(repo).users@ == old(repo).users@,
        ({
            let ss = old(repo).subscriptions@;
            if user_subs(ss, user_id).len() >= MAX_SUBSCRIPTIONS_PER_USER as int {
                &&& r matches Err(MonitorError::SubscriptionLimit(n)) && n
                    == MAX_SUBSCRIPTIONS_PER_USER
                &&& final(repo).subscriptions@ == ss
            } else {
                match resolved {
                    None => {
                        &&& r matches Err(MonitorError::NotFound(h)) && h@ == channel_handle@
                        &&& final(repo).subscriptions@ == ss
                    },
                    Some(c) => {
                        if has_subscription(ss, user_id, c.channel_id) {
                            &&& r matches Ok(SubscribeOutcome::AlreadySubscribed)
                            &&& final(repo).subscriptions@ == ss
                        } else {
                            &&& r matches Ok(SubscribeOutcome::Subscribed)
                            &&& final(repo).subscriptions@.len() == ss.len() + 1
                            &&& final(repo).subscriptions@.take(ss.len() as int) == ss
                            &&& ({
                                let added = final(repo).subscriptions@.last();
                                added.user_id == user_id && added.channel_id == c.channel_id
                                    && added.channel_handle@ == channel_handle@
                                    && added.subscribed_at == now
                            })
                        }
                    },
                }
            }
        }),
{
    let current = repo.get_user_subscriptions(user_id);
    if current.len() >= MAX_SUBSCRIPTIONS_PER_USER {
        return Err(MonitorError::SubscriptionLimit(MAX_SUBSCRIPTIONS_PER_USER));
    }
    let c = match resolved {
        Some(c) => c,
        None => {
            return Err(MonitorError::NotFound(channel_handle));
        },
    };
    if repo.is_user_subscribed(user_id, c.channel_id) {
        return Ok(SubscribeOutcome::AlreadySubscribed);
    }
    let ghost ss = repo.subscriptions@;
    repo.add_subscription(
        Subscription {
            user_id,
            channel_id: c.channel_id,
            channel_handle,
            subscribed_at: now,
        },
    );
    proof {
        assert(final(repo).subscriptions@ == ss.push(final(repo).subscriptions@.last()));
        assert(final(repo).subscriptions@.take(ss.len() as int) =~= ss);
    }
    Ok(SubscribeOutcome::Subscribed)
}

/// Rows of `channel_id` now carry the handle `h`; everything else is as in
/// `ss` (the self-healing rewrite after a channel rename).
pub open spec fn handle_updated(
    ss: Seq<Subscription>,
    ss2: Seq<Subscription>,
    channel_id: i64,
    h: Seq<char>,
) -> bool {
    &&& ss2.len() == ss.len()
    &&& forall|i: int|
        0 <= i < ss.len() ==> {
            let s = #[trigger] ss[i];
            let t = ss2[i];
            if s.channel_id == channel_id {
                t.user_id == s.user_id && t.channel_id == s.channel_id && t.channel_handle@ == h
                    && t.subscribed_at == s.subscribed_at
            } else {
                t == s
            }
        }
}

/// There is a row of `user_id` whose cached handle reads `handle`.
pub open spec fn has_sub_by_handle(
    ss: Seq<Subscription>,
    user_id: i64,
    handle: Seq<char>,
) -> bool {
    exists|i: int|
        0 <= i < ss.len() && (#[trigger] ss[i]).user_id == user_id && ss[i].channel_handle@
            == handle
}

/// Unsubscribe `user_id` from `channel_handle`.
///
/// The row is first removed by its cached handle. When that misses (the
/// handle likely went stale), `resolved` — the outcome of re-resolving the
/// handle — is consulted: an unresolved handle fails with NotFound; else the
/// row is removed by channel id, and if the fresh identity exposes a current
/// handle, every stored row of that channel is pointed at it (self-healing).
/// NotFound is returned exactly when neither path removes a row.
pub fn unsubscribe_from_channel(
    repo: &mut Repo,
    user_id: i64,
    channel_handle: String,
    resolved: Option<ChannelIdentity>,
) -> (r: Result<(), MonitorError>)
    requires
        old(repo).wf(),
    ensures
        final(repo).wf(),
        final(repo).messages@ == old(repo).messages@,
        final(repo).summarize_state@ == old(repo).summarize_state@,
        final(repo).users@ == old(repo).users@,
        ({
            let ss = old(repo).subscriptions@;
            if has_sub_by_handle(ss, user_id, channel_handle@) {
                &&& r is Ok
                &&& exists|i: int|
                    {
                        &&& 0 <= i < ss.len()
                        &&& (#[trigger] ss[i]).user_id == user_id
                        &&& ss[i].channel_handle@ == channel_handle@
                        &&& final(repo).subscriptions@ == ss.remove(i)
                    }
            } else {
                match resolved {
                    None => {
                        &&& r matches Err(MonitorError::NotFound(h)) && h@ == channel_handle@
                        &&& final(repo).subscriptions@ == ss
                    },
                    Some(c) => {
                        if has_subscription(ss, user_id, c.channel_id) {
                            &&& r is Ok
                            &&& exists|i: int|
                                {
                                    &&& 0 <= i < ss.len()
                                    &&& sub_key_matches(#[trigger] ss[i], user_id, c.channel_id)
                                    &&& match handle_of(c) {
                                        Some(h) => handle_updated(
                                            ss.remove(i),
                                            final(repo).subscriptions@,
                                            c.channel_id,
                                            h,
                                        ),
                                        None => final(repo).subscriptions@ == ss.remove(i),
                                    }
                                }
                        } else {
                            &&& r matches Err(MonitorError::NotFound(h)) && h@ == channel_handle@
                            &&& final(repo).subscriptions@ == ss
                        }
                    },
                }
            }
        }),
{
    let removed = repo.remove_subscription_by_handle(user_id, channel_handle.as_str());
    if removed {
        return Ok(());
    }
    let c = match resolved {
        Some(c) => c,
        None => {
            return Err(MonitorError::NotFound(channel_handle));
        },
    };
    let removed_by_id = repo.remove_subscription(user_id, c.channel_id);
    if !removed_by_id {
        return Err(MonitorError::NotFound(channel_handle));
    }
    match c.get_handle() {
        Some(new_handle) => {
            repo.update_subscription_handle(c.channel_id, new_handle.as_str());
        },
        None => (),
    }
    Ok(())
}

/// The user's channel handles, in the order the subscriptions were created.
pub fn list_subscriptions(repo: &Repo, user_id: i64) -> (r: Vec<String>)
    ensures
        r@.map_values(|h: String| h@) == user_subs(repo.subscriptions@, user_id).map_values(
            |s: Subscription| s.channel_handle@,
        ),
{
    let subs = repo.get_user_subscriptions(user_id);
    let mut r: Vec<String> = Vec::new();
    let n = subs.len();
    let mut i: usize = 0;
    while i < n
        invariant
            n == subs@.len(),
            i <= n,
            r@.len() == i,
            forall|k: int| 0 <= k < i ==> (#[trigger] r@[k])@ == subs@[k].channel_handle@,
        decreases n - i,
    {
        r.push(subs[i].channel_handle.clone());
        i = i + 1;
    }
    proof {
        assert(r@.map_values(|h: String| h@) =~= subs@.map_values(
            |s: Subscription| s.channel_handle@,
        ));
    }
    r
}

} // verus!
