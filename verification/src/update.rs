//! Ingesting inbound channel posts.
//!
//! For every new, non-outgoing post from a channel-type peer the monitor
//! resolves the channel's handle, drops sponsored and empty posts, persists
//! substantial texts, and — when the channel has subscribers — produces one
//! relay event for the gateway to deliver.

use vstd::prelude::*;

use crate::ad_filter::spec_is_ad;
use crate::entities::{RichRange, RichRangeView, SourceEntity, convert_seq, range_views};
use crate::monitor::MonitorError;
use crate::repo::{Repo, StoredMessage, channel_subscriber_ids, upserted_message};

verus! {

/// Posts shorter than this many characters are relayed but not stored, so
/// that the summarization history stays free of throwaway posts.
pub const MIN_STORED_TEXT_CHARS: usize = 20;

/// One inbound post, as the transport hands it over: the peer's kind and
/// direction, the channel's current handle if the peer exposes one, the text
/// and its rich-text ranges.
pub struct InboundPost {
    pub outgoing: bool,
    pub is_channel: bool,
    pub channel_id: i64,
    pub message_id: i32,
    pub handle: Option<String>,
    pub text: String,
    pub entities: Option<Vec<SourceEntity>>,
}

/// The relay notification the gateway consumes: one per qualifying post.
pub enum BotEvent {
    NewMessage {
        channel_id: i64,
        channel_handle: String,
        message_id: i32,
        text: String,
        subscribers: Vec<i64>,
        entities: Vec<RichRange>,
    },
}

/// What became of one inbound post.
pub enum IngestOutcome {
    /// Not a new inbound channel post; discarded silently.
    NotChannelPost,
    /// Sponsored content; discarded.
    Ad,
    /// No text (a media-only post); discarded.
    Empty,
    /// Processed, but the channel has no subscribers: no relay event.
    /// `stored` says whether the text was persisted.
    NoSubscribers { stored: bool },
    /// Processed and to be relayed to the channel's subscribers.
    Relayed { stored: bool, event: BotEvent },
}

/// Ingest one inbound post against the store, returning what the gateway
/// should relay.
///
/// A post is handled only if it is a new, non-outgoing channel post; a
/// channel without a public handle is unsupported and fails with
/// EmptyHandle; sponsored and empty posts are dropped; texts of at least
/// `MIN_STORED_TEXT_CHARS` characters are upserted on (channel_id,
/// message_id) with `now` as their timestamp; and a relay event carrying the
/// current subscriber set and the converted rich-text ranges is produced
/// exactly when the channel has subscribers.
#[verifier::rlimit(30)]
pub fn ingest_post(repo: &mut Repo, post: InboundPost, now: i64) -> (r: Result<
    IngestOutcome,
    MonitorError,
>)
    requires
        old(repo).wf(),
    ensures
        final(repo).wf(),
        final(repo).subscriptions@ == old(repo).subscriptions@,
        final(repo).summarize_state@ == old(repo).summarize_state@,
        final(repo).users@ == old(repo).users@,
        ({
            let stored_expected = post.text@.len() >= MIN_STORED_TEXT_CHARS as int;
            let subscribers = channel_subscriber_ids(old(repo).subscriptions@, post.channel_id);
            if post.outgoing || !post.is_channel {
                &&& r matches Ok(IngestOutcome::NotChannelPost)
                &&& final(repo).messages@ == old(repo).messages@
            } else if post.handle is None {
                &&& r matches Err(MonitorError::EmptyHandle)
                &&& final(repo).messages@ == old(repo).messages@
            } else if spec_is_ad(post.text@) {
                &&& r matches Ok(IngestOutcome::Ad)
                &&& final(repo).messages@ == old(repo).messages@
            } else if post.text@.len() == 0 {
                &&& r matches Ok(IngestOutcome::Empty)
                &&& final(repo).messages@ == old(repo).messages@
            } else {
                &&& if stored_expected {
                    exists|m: StoredMessage|
                        {
                            &&& #[trigger] upserted_message(
                                old(repo).messages@,
                                final(repo).messages@,
                                m,
                            )
                            &&& m.channel_id == post.channel_id
                            &&& m.message_id == post.message_id
                            &&& m.text@ == post.text@
                            &&& m.date == now
                        }
                } else {
                    final(repo).messages@ == old(repo).messages@
                }
                &&& if subscribers.len() == 0 {
                    r matches Ok(IngestOutcome::NoSubscribers { stored }) && stored
                        == stored_expected
                } else {
                    &&& r matches Ok(IngestOutcome::Relayed { stored, event })
                    &&& stored == stored_expected
                    &&& event matches BotEvent::NewMessage {
                        channel_id,
                        channel_handle,
                        message_id,
                        text,
                        subscribers: subs,
                        entities,
                    }
                    &&& channel_id == post.channel_id
                    &&& match post.handle {
                        Some(h) => channel_handle@ == h@,
                        None => false,
                    }
                    &&& message_id == post.message_id
                    &&& text@ == post.text@
                    &&& subs@ == subscribers
                    &&& range_views(entities@) == match post.entities {
                        Some(es) => convert_seq(es@),
                        None => Seq::<RichRangeView>::empty(),
                    }
                }
            }
        }),
{
    if post.outgoing || !post.is_channel {
        return Ok(IngestOutcome::NotChannelPost);
    }
    let channel_handle = match post.handle {
        Some(h) => h,
        None => {
            return Err(MonitorError::EmptyHandle);
        },
    };
    if crate::ad_filter::is_ad(post.text.as_str()) {
        return Ok(IngestOutcome::Ad);
    }
    let text_chars = post.text.as_str().unicode_len();
    if text_chars == 0 {
        return Ok(IngestOutcome::Empty);
    }
    let stored = text_chars >= MIN_STORED_TEXT_CHARS;
    if stored {
        repo.store_message(
            StoredMessage {
                channel_id: post.channel_id,
                message_id: post.message_id,
                text: post.text.clone(),
                date: now,
            },
        );
    }
    let subscribers = repo.get_channel_subscribers(post.channel_id);
    if subscribers.len() == 0 {
        return Ok(IngestOutcome::NoSubscribers { stored });
    }
    let entities = crate::entities::convert_entities(post.entities.as_ref());
    let event = BotEvent::NewMessage {
        channel_id: post.channel_id,
        channel_handle,
        message_id: post.message_id,
        text: post.text,
        subscribers,
        entities,
    };
    Ok(IngestOutcome::Relayed { stored, event })
}

} // verus!
