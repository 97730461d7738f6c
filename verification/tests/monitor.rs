use tgfeed::command::{CommandReply, MonitorCommand};
use tgfeed::monitor::{
    ChannelIdentity, MonitorError, SubscribeOutcome, authorize_command, list_subscriptions,
    subscribe_to_channel, unsubscribe_from_channel,
};
use tgfeed::repo::{Repo, Subscription};
use tgfeed::retry::{FanoutAction, FanoutState, RetryPolicy, SendOutcome};
use tgfeed::update::{BotEvent, IngestOutcome, InboundPost, ingest_post};

fn channel(id: i64, handle: &str) -> ChannelIdentity {
    ChannelIdentity { channel_id: id, username: Some(handle.to_string()), usernames: vec![] }
}

fn post(channel_id: i64, message_id: i32, handle: &str, text: &str) -> InboundPost {
    InboundPost {
        outgoing: false,
        is_channel: true,
        channel_id,
        message_id,
        handle: Some(handle.to_string()),
        text: text.to_string(),
        entities: None,
    }
}

#[test]
fn test_subscribe_and_resubscribe() {
    let mut repo = Repo::new();
    let r = subscribe_to_channel(&mut repo, 1, "chan".to_string(), Some(channel(7, "chan")), 100);
    assert!(matches!(r, Ok(SubscribeOutcome::Subscribed)));
    assert_eq!(repo.subscriptions.len(), 1);

    // the second subscribe succeeds idempotently, adding no row
    let r = subscribe_to_channel(&mut repo, 1, "chan".to_string(), Some(channel(7, "chan")), 200);
    assert!(matches!(r, Ok(SubscribeOutcome::AlreadySubscribed)));
    assert_eq!(repo.subscriptions.len(), 1);
}

#[test]
fn test_subscribe_not_found() {
    let mut repo = Repo::new();
    let r = subscribe_to_channel(&mut repo, 1, "nochan".to_string(), None, 100);
    match r {
        Err(MonitorError::NotFound(h)) => assert_eq!(h, "nochan"),
        _ => panic!("expected NotFound"),
    }
    assert!(repo.subscriptions.is_empty());
}

#[test]
fn test_subscribe_limit() {
    let mut repo = Repo::new();
    for k in 0..30 {
        let r = subscribe_to_channel(
            &mut repo,
            1,
            format!("chan{}", k),
            Some(channel(100 + k as i64, &format!("chan{}", k))),
            100,
        );
        assert!(r.is_ok());
    }
    let r = subscribe_to_channel(&mut repo, 1, "onemore".to_string(), Some(channel(999, "onemore")), 100);
    match r {
        Err(MonitorError::SubscriptionLimit(n)) => assert_eq!(n, 30),
        _ => panic!("expected the cap"),
    }
    assert_eq!(repo.subscriptions.len(), 30);
    // another user is not affected
    let r = subscribe_to_channel(&mut repo, 2, "chan0".to_string(), Some(channel(100, "chan0")), 100);
    assert!(matches!(r, Ok(SubscribeOutcome::Subscribed)));
}

#[test]
fn test_unsubscribe_by_cached_handle() {
    let mut repo = Repo::new();
    repo.add_subscription(Subscription {
        user_id: 1,
        channel_id: 7,
        channel_handle: "chan".to_string(),
        subscribed_at: 100,
    });
    let r = unsubscribe_from_channel(&mut repo, 1, "chan".to_string(), None);
    assert!(r.is_ok());
    assert!(repo.subscriptions.is_empty());
}

#[test]
fn test_unsubscribe_self_heals_stale_handle() {
    let mut repo = Repo::new();
    // two users follow channel 7 under its old name
    repo.add_subscription(Subscription {
        user_id: 1,
        channel_id: 7,
        channel_handle: "oldname".to_string(),
        subscribed_at: 100,
    });
    repo.add_subscription(Subscription {
        user_id: 2,
        channel_id: 7,
        channel_handle: "oldname".to_string(),
        subscribed_at: 100,
    });
    // user 1 unsubscribes under the channel's new name: the cached-handle
    // path misses, the resolved identity removes the row, and the other
    // user's cached handle is refreshed
    let r = unsubscribe_from_channel(&mut repo, 1, "newname".to_string(), Some(channel(7, "newname")));
    assert!(r.is_ok());
    assert_eq!(repo.subscriptions.len(), 1);
    assert_eq!(repo.subscriptions[0].user_id, 2);
    assert_eq!(repo.subscriptions[0].channel_handle, "newname");
}

#[test]
fn test_unsubscribe_not_found_when_nothing_removed() {
    let mut repo = Repo::new();
    let r = unsubscribe_from_channel(&mut repo, 1, "ghost".to_string(), None);
    assert!(matches!(r, Err(MonitorError::NotFound(_))));

    // resolving succeeds but the user has no such subscription either
    let r = unsubscribe_from_channel(&mut repo, 1, "ghost".to_string(), Some(channel(7, "ghost")));
    assert!(matches!(r, Err(MonitorError::NotFound(_))));
}

#[test]
fn test_list_subscriptions_in_insertion_order() {
    let mut repo = Repo::new();
    repo.add_subscription(Subscription {
        user_id: 1,
        channel_id: 7,
        channel_handle: "first".to_string(),
        subscribed_at: 100,
    });
    repo.add_subscription(Subscription {
        user_id: 1,
        channel_id: 8,
        channel_handle: "second".to_string(),
        subscribed_at: 200,
    });
    assert_eq!(list_subscriptions(&repo, 1), vec!["first".to_string(), "second".to_string()]);
    assert!(list_subscriptions(&repo, 2).is_empty());
}

#[test]
fn test_authorize_command_gates_users() {
    let mut repo = Repo::new();
    let cmd = MonitorCommand::ListSubscriptions { user_id: 1 };
    assert!(!authorize_command(&repo, &cmd));
    repo.set_user_allowed(1, true);
    assert!(authorize_command(&repo, &cmd));
    // Shutdown bypasses authorization
    assert!(authorize_command(&repo, &MonitorCommand::Shutdown));
}

#[test]
fn test_command_user_and_error_reply() {
    let cmd = MonitorCommand::Subscribe { user_id: 9, channel_handle: "c".to_string() };
    assert_eq!(cmd.get_user_id(), Some(9));
    match cmd.respond_with_error("nope".to_string()) {
        Some(CommandReply::Subscribe(Err(m))) => assert_eq!(m, "nope"),
        _ => panic!("expected a subscribe error reply"),
    }
    assert_eq!(MonitorCommand::Shutdown.get_user_id(), None);
    assert!(MonitorCommand::Shutdown.respond_with_error("x".to_string()).is_none());
}

#[test]
fn test_ingest_discards_non_channel_and_ads_and_empty() {
    let mut repo = Repo::new();
    let mut p = post(7, 1, "chan", "some long enough message here");
    p.is_channel = false;
    assert!(matches!(ingest_post(&mut repo, p, 100), Ok(IngestOutcome::NotChannelPost)));

    let mut p = post(7, 1, "chan", "text");
    p.outgoing = true;
    assert!(matches!(ingest_post(&mut repo, p, 100), Ok(IngestOutcome::NotChannelPost)));

    let p = post(7, 1, "chan", "покупайте #реклама");
    assert!(matches!(ingest_post(&mut repo, p, 100), Ok(IngestOutcome::Ad)));

    let p = post(7, 1, "chan", "");
    assert!(matches!(ingest_post(&mut repo, p, 100), Ok(IngestOutcome::Empty)));

    let mut p = post(7, 1, "chan", "text");
    p.handle = None;
    assert!(matches!(ingest_post(&mut repo, p, 100), Err(MonitorError::EmptyHandle)));

    assert!(repo.messages.is_empty());
}

#[test]
fn test_ingest_short_text_relayed_not_stored() {
    let mut repo = Repo::new();
    repo.add_subscription(Subscription {
        user_id: 1,
        channel_id: 7,
        channel_handle: "chan".to_string(),
        subscribed_at: 50,
    });
    let r = ingest_post(&mut repo, post(7, 1, "chan", "short"), 100);
    match r {
        Ok(IngestOutcome::Relayed { stored, .. }) => assert!(!stored),
        _ => panic!("expected a relay"),
    }
    assert!(repo.messages.is_empty());
}

#[test]
fn test_ingest_without_subscribers_stores_but_does_not_relay() {
    let mut repo = Repo::new();
    let r = ingest_post(&mut repo, post(7, 1, "chan", "a message of twenty chars or more"), 100);
    match r {
        Ok(IngestOutcome::NoSubscribers { stored }) => assert!(stored),
        _ => panic!("expected no subscribers"),
    }
    assert_eq!(repo.messages.len(), 1);
}

#[test]
fn test_end_to_end_relay_with_retries() {
    // user A subscribes to "newschan"
    let mut repo = Repo::new();
    repo.set_user_allowed(1, true);
    let cmd = MonitorCommand::Subscribe { user_id: 1, channel_handle: "newschan".to_string() };
    assert!(authorize_command(&repo, &cmd));
    let r = subscribe_to_channel(&mut repo, 1, "newschan".to_string(), Some(channel(77, "newschan")), 100);
    assert!(matches!(r, Ok(SubscribeOutcome::Subscribed)));

    // a post of 25 characters arrives on that channel: stored, and a relay
    // event names subscriber A
    let text = "exactly 25 characters !!!";
    assert_eq!(text.chars().count(), 25);
    let r = ingest_post(&mut repo, post(77, 5, "newschan", text), 200);
    let event = match r {
        Ok(IngestOutcome::Relayed { stored, event }) => {
            assert!(stored);
            event
        },
        _ => panic!("expected a relay"),
    };
    assert_eq!(repo.messages.len(), 1);
    let BotEvent::NewMessage { channel_id, channel_handle, message_id, text: t, subscribers, .. } =
        event;
    assert_eq!(channel_id, 77);
    assert_eq!(channel_handle, "newschan");
    assert_eq!(message_id, 5);
    assert_eq!(t, text);
    assert_eq!(subscribers, vec![1]);

    // delivery to A fails twice, then succeeds on the third attempt
    let mut fanout = FanoutState::new(RetryPolicy::exponential(1000), subscribers);
    for expected_delay in [0u64, 1000, 2000] {
        match fanout.next_action() {
            FanoutAction::Send { recipient, timeout_ms, delay_before_ms } => {
                assert_eq!(recipient, 1);
                assert_eq!(timeout_ms, 30000);
                assert_eq!(delay_before_ms, expected_delay);
            },
            FanoutAction::Done => panic!("not done yet"),
        }
        if expected_delay < 2000 {
            fanout.record_outcome(SendOutcome::Failed);
        } else {
            fanout.record_outcome(SendOutcome::Delivered);
        }
    }
    assert!(fanout.is_done());
    assert!(matches!(fanout.next_action(), FanoutAction::Done));
    assert_eq!(fanout.log.len(), 1);
    assert_eq!(fanout.log[0].recipient, 1);
    assert_eq!(fanout.log[0].attempts, 3);
    assert!(fanout.log[0].delivered);
}

#[test]
fn test_fanout_exhaustion_moves_to_next_recipient() {
    let mut fanout = FanoutState::new(RetryPolicy::exponential(1000), vec![10, 20]);
    for _ in 0..5 {
        match fanout.next_action() {
            FanoutAction::Send { recipient, .. } => assert_eq!(recipient, 10),
            FanoutAction::Done => panic!("not done"),
        }
        fanout.record_outcome(SendOutcome::Failed);
    }
    // recipient 10 is exhausted and logged; 20 is served next, after pacing
    assert_eq!(fanout.log.len(), 1);
    assert_eq!(fanout.log[0].recipient, 10);
    assert_eq!(fanout.log[0].attempts, 5);
    assert!(!fanout.log[0].delivered);
    match fanout.next_action() {
        FanoutAction::Send { recipient, delay_before_ms, .. } => {
            assert_eq!(recipient, 20);
            assert_eq!(delay_before_ms, 1000); // the pacing delay
        },
        FanoutAction::Done => panic!("second recipient still pending"),
    }
    fanout.record_outcome(SendOutcome::Delivered);
    assert!(fanout.is_done());
    assert_eq!(fanout.log.len(), 2);
    assert!(fanout.log[1].delivered);
}

#[test]
fn test_error_messages() {
    assert_eq!(
        MonitorError::NotFound("chan".to_string()).message(),
        "Channel not found: @chan"
    );
    assert_eq!(MonitorError::EmptyHandle.message(), "Private channels not supported");
    assert_eq!(
        MonitorError::SubscriptionLimit(30).message(),
        "Subscription limit reached (max 30 channels)"
    );
    assert_eq!(MonitorError::Internal("storage failed".to_string()).message(), "storage failed");
}
