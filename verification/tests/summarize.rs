use tgfeed::repo::{Repo, StoredMessage, Subscription};
use tgfeed::summarize::{SummarizeOutcome, summarize_prepare};

const LONG_A: &str = "aaaaaaaaaaaaaaaaaaaaaaaaaaaaaaaaaaaaaaaa"; // 40 chars
const LONG_B: &str = "bbbbbbbbbbbbbbbbbbbbbbbbbbbbbbbbbbbbbbbb";
const LONG_C: &str = "cccccccccccccccccccccccccccccccccccccccc";

fn follow(repo: &mut Repo, user: i64, channel: i64, handle: &str) {
    repo.add_subscription(Subscription {
        user_id: user,
        channel_id: channel,
        channel_handle: handle.to_string(),
        subscribed_at: 0,
    });
}

fn store(repo: &mut Repo, channel: i64, id: i32, text: &str, date: i64) {
    repo.store_message(StoredMessage { channel_id: channel, message_id: id, text: text.to_string(), date });
}

#[test]
fn test_summarize_without_subscriptions() {
    let mut repo = Repo::new();
    let r = summarize_prepare(&mut repo, 1, 1_000_000);
    assert!(matches!(r, SummarizeOutcome::NoSubscriptions));
    assert!(repo.summarize_state.is_empty());
}

#[test]
fn test_summarize_without_new_messages() {
    let mut repo = Repo::new();
    follow(&mut repo, 1, 7, "chan");
    // a message older than the default window does not qualify
    store(&mut repo, 7, 1, LONG_A, 100);
    let now = 100 + 604800 + 1;
    let r = summarize_prepare(&mut repo, 1, now);
    assert!(matches!(r, SummarizeOutcome::NoNewMessages));
    // the checkpoint is not advanced on an empty result
    assert!(repo.summarize_state.is_empty());
}

#[test]
fn test_summarize_skips_short_texts() {
    let mut repo = Repo::new();
    follow(&mut repo, 1, 7, "chan");
    store(&mut repo, 7, 1, "short but stored nonetheless", 500);
    let r = summarize_prepare(&mut repo, 1, 1000);
    assert!(matches!(r, SummarizeOutcome::NoNewMessages));
}

#[test]
fn test_summarize_batch_most_recent_first_one_per_channel() {
    let mut repo = Repo::new();
    follow(&mut repo, 1, 7, "chan7");
    follow(&mut repo, 1, 8, "chan8");
    store(&mut repo, 7, 1, LONG_A, 500);
    store(&mut repo, 7, 2, LONG_B, 900); // most recent of channel 7
    store(&mut repo, 8, 1, LONG_C, 700);
    store(&mut repo, 9, 1, LONG_A, 950); // not followed by this user

    let now = 1000;
    let r = summarize_prepare(&mut repo, 1, now);
    let batch = match r {
        SummarizeOutcome::Batch(b) => b,
        _ => panic!("expected a batch"),
    };
    assert_eq!(batch.len(), 2);
    assert_eq!(batch[0].channel_handle, "chan7");
    assert_eq!(batch[0].text, LONG_B);
    assert_eq!(batch[0].date, 900);
    assert_eq!(batch[1].channel_handle, "chan8");
    assert_eq!(batch[1].text, LONG_C);

    // the checkpoint advanced: an immediate re-run finds nothing new
    let r = summarize_prepare(&mut repo, 1, now + 1);
    assert!(matches!(r, SummarizeOutcome::NoNewMessages));
}

#[test]
fn test_summarize_respects_window() {
    let mut repo = Repo::new();
    follow(&mut repo, 1, 7, "chan");
    store(&mut repo, 7, 1, LONG_A, 100);
    store(&mut repo, 7, 2, LONG_B, 900);
    repo.update_summarize_time(1, 800);

    let r = summarize_prepare(&mut repo, 1, 1000);
    let batch = match r {
        SummarizeOutcome::Batch(b) => b,
        _ => panic!("expected a batch"),
    };
    // only the message at 900 is inside the window that starts at 800
    assert_eq!(batch.len(), 1);
    assert_eq!(batch[0].text, LONG_B);
}

#[test]
fn test_summarize_does_not_touch_other_users() {
    let mut repo = Repo::new();
    follow(&mut repo, 1, 7, "chan");
    follow(&mut repo, 2, 7, "chan");
    store(&mut repo, 7, 1, LONG_A, 900);

    let r = summarize_prepare(&mut repo, 1, 1000);
    assert!(matches!(r, SummarizeOutcome::Batch(_)));

    // user 2 still sees the message in their window
    let r = summarize_prepare(&mut repo, 2, 1000);
    let batch = match r {
        SummarizeOutcome::Batch(b) => b,
        _ => panic!("expected a batch"),
    };
    assert_eq!(batch.len(), 1);
}

#[test]
fn test_summarize_fixed_messages() {
    let mut repo = Repo::new();
    let r = summarize_prepare(&mut repo, 1, 1_000_000);
    assert_eq!(
        tgfeed::response::summarize_fixed_message(&r).as_deref(),
        Some("No subscriptions to summarize.")
    );
    follow(&mut repo, 1, 7, "chan");
    let r = summarize_prepare(&mut repo, 1, 1_000_000);
    assert_eq!(
        tgfeed::response::summarize_fixed_message(&r).as_deref(),
        Some("No new messages since last summary.")
    );
    store(&mut repo, 7, 1, LONG_A, 999_999);
    let r = summarize_prepare(&mut repo, 1, 1_000_000);
    assert!(tgfeed::response::summarize_fixed_message(&r).is_none());
}
