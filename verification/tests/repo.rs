use tgfeed::repo::{Repo, StoredMessage, Subscription};

fn msg(channel_id: i64, message_id: i32, text: &str, date: i64) -> StoredMessage {
    StoredMessage { channel_id, message_id, text: text.to_string(), date }
}

fn sub(user_id: i64, channel_id: i64, handle: &str, at: i64) -> Subscription {
    Subscription { user_id, channel_id, channel_handle: handle.to_string(), subscribed_at: at }
}

#[test]
fn test_store_message_idempotent() {
    // ingesting the same (channel_id, message_id) twice leaves exactly one
    // row, with the latest text and timestamp
    let mut repo = Repo::new();
    repo.store_message(msg(7, 1, "first text", 100));
    repo.store_message(msg(7, 1, "second text", 200));

    assert_eq!(repo.messages.len(), 1);
    assert_eq!(repo.messages[0].text, "second text");
    assert_eq!(repo.messages[0].date, 200);
}

#[test]
fn test_store_message_distinct_keys() {
    let mut repo = Repo::new();
    repo.store_message(msg(7, 1, "a", 100));
    repo.store_message(msg(7, 2, "b", 100));
    repo.store_message(msg(8, 1, "c", 100));
    assert_eq!(repo.messages.len(), 3);
}

#[test]
fn test_add_subscription_upserts() {
    // two subscriptions with the same (user_id, channel_id) never produce
    // two rows
    let mut repo = Repo::new();
    repo.add_subscription(sub(1, 7, "chan", 100));
    repo.add_subscription(sub(1, 7, "chan_renamed", 200));

    assert_eq!(repo.subscriptions.len(), 1);
    assert_eq!(repo.subscriptions[0].channel_handle, "chan_renamed");

    repo.add_subscription(sub(2, 7, "chan", 300));
    assert_eq!(repo.subscriptions.len(), 2);
}

#[test]
fn test_remove_subscription_by_handle() {
    let mut repo = Repo::new();
    repo.add_subscription(sub(1, 7, "chan", 100));
    repo.add_subscription(sub(1, 8, "other", 100));

    assert!(repo.remove_subscription_by_handle(1, "chan"));
    assert_eq!(repo.subscriptions.len(), 1);
    assert!(!repo.remove_subscription_by_handle(1, "chan"));
    assert!(!repo.remove_subscription_by_handle(2, "other"));
}

#[test]
fn test_remove_subscription_by_id() {
    let mut repo = Repo::new();
    repo.add_subscription(sub(1, 7, "chan", 100));
    assert!(repo.remove_subscription(1, 7));
    assert!(!repo.remove_subscription(1, 7));
    assert!(repo.subscriptions.is_empty());
}

#[test]
fn test_update_subscription_handle_rewrites_all_rows() {
    let mut repo = Repo::new();
    repo.add_subscription(sub(1, 7, "old", 100));
    repo.add_subscription(sub(2, 7, "stale", 100));
    repo.add_subscription(sub(1, 8, "other", 100));

    repo.update_subscription_handle(7, "fresh");

    assert_eq!(repo.subscriptions[0].channel_handle, "fresh");
    assert_eq!(repo.subscriptions[1].channel_handle, "fresh");
    assert_eq!(repo.subscriptions[2].channel_handle, "other");
}

#[test]
fn test_get_user_subscriptions_in_order() {
    let mut repo = Repo::new();
    repo.add_subscription(sub(1, 7, "a", 100));
    repo.add_subscription(sub(2, 9, "x", 100));
    repo.add_subscription(sub(1, 8, "b", 200));

    let subs = repo.get_user_subscriptions(1);
    assert_eq!(subs.len(), 2);
    assert_eq!(subs[0].channel_handle, "a");
    assert_eq!(subs[1].channel_handle, "b");
}

#[test]
fn test_subscriber_queries() {
    let mut repo = Repo::new();
    repo.add_subscription(sub(1, 7, "a", 100));
    repo.add_subscription(sub(2, 7, "a", 100));

    assert!(repo.is_subscribed(7));
    assert!(repo.has_subscribers(7));
    assert!(!repo.is_subscribed(8));
    assert!(repo.is_user_subscribed(1, 7));
    assert!(!repo.is_user_subscribed(3, 7));
    assert_eq!(repo.get_channel_subscribers(7), vec![1, 2]);
    assert_eq!(repo.get_channel_subscribers(8), Vec::<i64>::new());
    assert_eq!(repo.get_subscribed_channels(), vec![7]);
}

#[test]
fn test_summarize_time_defaults_to_a_week_back() {
    let mut repo = Repo::new();
    let now = 1_000_000_000;
    assert_eq!(repo.get_last_summarize_time(5, now), now - 604800);

    repo.update_summarize_time(5, now);
    assert_eq!(repo.get_last_summarize_time(5, now + 10), now);
    // other users keep their default window
    assert_eq!(repo.get_last_summarize_time(6, now), now - 604800);
}

#[test]
fn test_user_allow_list() {
    let mut repo = Repo::new();
    assert!(!repo.is_user_allowed(1));
    repo.set_user_allowed(1, true);
    assert!(repo.is_user_allowed(1));
    repo.set_user_allowed(1, false);
    assert!(!repo.is_user_allowed(1));
    assert!(!repo.is_user_allowed(2));
}

#[test]
fn test_get_messages_since_window_and_cap() {
    let mut repo = Repo::new();
    let long = "a text comfortably longer than thirty characters";
    repo.store_message(msg(7, 1, long, 100));
    repo.store_message(msg(7, 2, long, 300));
    repo.store_message(msg(8, 1, long, 200));
    repo.store_message(msg(9, 1, long, 400)); // channel not queried
    repo.store_message(msg(7, 3, "short", 350)); // too short for a summary

    let r = repo.get_messages_since(&vec![7, 8], 150, 10);
    assert_eq!(r.len(), 2);
    assert_eq!((r[0].channel_id, r[0].date), (7, 300));
    assert_eq!((r[1].channel_id, r[1].date), (8, 200));

    // the cap keeps the most recent
    let r = repo.get_messages_since(&vec![7, 8], 0, 1);
    assert_eq!(r.len(), 1);
    assert_eq!(r[0].date, 300);
}
