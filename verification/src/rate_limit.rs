//! Per-user, per-scope rate limiting.
//!
//! Each scope keeps one independent bucket per key (here, per user id) with
//! capacity one: a check passes when the key's refill period has elapsed
//! since its last passed check, and a denied check consumes nothing. The
//! caller supplies the clock reading, so the decision is a function of the
//! limiter's state and the given instant.

use vstd::prelude::*;

verus! {

/// The refill period of the per-user command scope, in milliseconds.
pub const COMMANDS_PERIOD_MS: u64 = 1000;

/// The refill period of the per-user summarize scope, in milliseconds.
pub const SUMMARIZE_PERIOD_MS: u64 = 3600000;

/// One key's bucket: the earliest instant its next check may pass.
pub struct BucketEntry {
    pub key: i64,
    pub not_before: u64,
}

/// A keyed rate limiter: one bucket per key, capacity one, fixed period.
pub struct KeyedRateLimiter {
    pub period_ms: u64,
    pub entries: Vec<BucketEntry>,
}

pub open spec fn unique_bucket_keys(es: Seq<BucketEntry>) -> bool {
    forall|i: int, j: int|
        0 <= i < j < es.len() ==> (#[trigger] es[i]).key != (#[trigger] es[j]).key
}

/// Whether the limiter holds a bucket for `key`.
pub open spec fn has_bucket(es: Seq<BucketEntry>, key: i64) -> bool {
    exists|i: int| 0 <= i < es.len() && (#[trigger] es[i]).key == key
}

/// The earliest instant a check for `key` may pass.
pub open spec fn bucket_not_before(es: Seq<BucketEntry>, key: i64) -> u64 {
    let i = choose|i: int| 0 <= i < es.len() && (#[trigger] es[i]).key == key;
    es[i].not_before
}

/// Whether a check for `key` at instant `now_ms` passes: always for a fresh
/// key, else once the key's period has elapsed.
pub open spec fn allowed_at(es: Seq<BucketEntry>, key: i64, now_ms: u64) -> bool {
    !has_bucket(es, key) || now_ms >= bucket_not_before(es, key)
}

impl KeyedRateLimiter {
    pub open spec fn wf(&self) -> bool {
        unique_bucket_keys(self.entries@)
    }

    /// A limiter with the given refill period and no buckets.
    pub fn new(period_ms: u64) -> (r: KeyedRateLimiter)
        ensures
            r.wf(),
            r.period_ms == period_ms,
            r.entries@.len() == 0,
    {
        KeyedRateLimiter { period_ms, entries: Vec::new() }
    }

    /// Check `key` at instant `now_ms`: passes exactly when the key is fresh
    /// or its period has elapsed. A passed check re-arms the key's bucket a
    /// full period ahead; a denied check changes nothing.
    pub fn check_key(&mut self, key: i64, now_ms: u64) -> (r: bool)
        requires
            old(self).wf(),
            now_ms + old(self).period_ms <= u64::MAX,
        ensures
            final(self).wf(),
            final(self).period_ms == old(self).period_ms,
            r == allowed_at(old(self).entries@, key, now_ms),
            !r ==> final(self).entries@ == old(self).entries@,
            r ==> has_bucket(final(self).entries@, key) && bucket_not_before(
                final(self).entries@,
                key,
            ) == now_ms + old(self).period_ms,
            forall|k: i64|
                k != key ==> has_bucket(final(self).entries@, k) == has_bucket(
                    old(self).entries@,
                    k,
                ) && (has_bucket(old(self).entries@, k) ==> bucket_not_before(
                    final(self).entries@,
                    k,
                ) == bucket_not_before(old(self).entries@, k)),
    {
        let n = self.entries.len();
        let mut i: usize = 0;
        while i < n
            invariant
                old(self) == self,
                old(self).wf(),
                now_ms + old(self).period_ms <= u64::MAX,
                n == self.entries@.len(),
                i <= n,
                forall|k: int| 0 <= k < i ==> (#[trigger] self.entries@[k]).key != key,
            decreases n - i,
        {
            if self.entries[i].key == key {
                proof {
                    lemma_bucket_lookup(self.entries@, key, i as int);
                }
                if now_ms >= self.entries[i].not_before {
                    self.entries[i] = BucketEntry { key, not_before: now_ms + self.period_ms };
                    proof {
                        lemma_bucket_update_frame(
                            old(self).entries@,
                            final(self).entries@,
                            BucketEntry { key, not_before: (now_ms + old(self).period_ms) as u64 },
                            i as int,
                        );
                    }
                    return true;
                } else {
                    return false;
                }
            }
            i = i + 1;
        }
        self.entries.push(BucketEntry { key, not_before: now_ms + self.period_ms });
        proof {
            lemma_bucket_push_frame(
                old(self).entries@,
                final(self).entries@,
                BucketEntry { key, not_before: (now_ms + old(self).period_ms) as u64 },
            );
        }
        true
    }
}

/// With unique keys, any matching bucket is the chosen one.
proof fn lemma_bucket_lookup(es: Seq<BucketEntry>, key: i64, i: int)
    requires
        unique_bucket_keys(es),
        0 <= i < es.len(),
        es[i].key == key,
    ensures
        has_bucket(es, key),
        bucket_not_before(es, key) == es[i].not_before,
{
    let k = choose|k: int| 0 <= k < es.len() && (#[trigger] es[k]).key == key;
    if k < i {
        assert(es[k].key != es[i].key);
    } else if k > i {
        assert(es[i].key != es[k].key);
    }
}

/// Re-arming one key's bucket leaves every other key's bucket unchanged.
proof fn lemma_bucket_update_frame(
    es: Seq<BucketEntry>,
    es2: Seq<BucketEntry>,
    e: BucketEntry,
    i: int,
)
    requires
        unique_bucket_keys(es),
        0 <= i < es.len(),
        es[i].key == e.key,
        es2 == es.update(i, e),
    ensures
        unique_bucket_keys(es2),
        has_bucket(es2, e.key),
        bucket_not_before(es2, e.key) == e.not_before,
        forall|k: i64|
            k != e.key ==> has_bucket(es2, k) == has_bucket(es, k) && (has_bucket(es, k)
                ==> bucket_not_before(es2, k) == bucket_not_before(es, k)),
{
    assert(forall|k: int| 0 <= k < es2.len() ==> (#[trigger] es2[k]).key == es[k].key);
    assert forall|ii: int, jj: int| 0 <= ii < jj < es2.len() implies (#[trigger] es2[ii]).key != (
    #[trigger] es2[jj]).key by {
        assert(es[ii].key != es[jj].key);
    }
    lemma_bucket_lookup(es2, e.key, i);
    assert forall|k: i64|
        k != e.key implies has_bucket(es2, k) == has_bucket(es, k) && (has_bucket(es, k)
        ==> bucket_not_before(es2, k) == bucket_not_before(es, k)) by {
        if has_bucket(es2, k) {
            let k2 = choose|k2: int| 0 <= k2 < es2.len() && (#[trigger] es2[k2]).key == k;
            assert(es[k2].key == k);
        }
        if has_bucket(es, k) {
            let k2 = choose|k2: int| 0 <= k2 < es.len() && (#[trigger] es[k2]).key == k;
            assert(k2 != i);
            assert(es2[k2] == es[k2]);
            lemma_bucket_lookup(es2, k, k2);
            let k3 = choose|k3: int| 0 <= k3 < es.len() && (#[trigger] es[k3]).key == k;
            if k3 != k2 {
                assert(es[k3].key != es[k2].key);
            }
        }
    }
}

/// Adding a fresh key's bucket leaves every other key's bucket unchanged.
proof fn lemma_bucket_push_frame(es: Seq<BucketEntry>, es2: Seq<BucketEntry>, e: BucketEntry)
    requires
        unique_bucket_keys(es),
        forall|k: int| 0 <= k < es.len() ==> (#[trigger] es[k]).key != e.key,
        es2 == es.push(e),
    ensures
        unique_bucket_keys(es2),
        has_bucket(es2, e.key),
        bucket_not_before(es2, e.key) == e.not_before,
        forall|k: i64|
            k != e.key ==> has_bucket(es2, k) == has_bucket(es, k) && (has_bucket(es, k)
                ==> bucket_not_before(es2, k) == bucket_not_before(es, k)),
{
    let n = es.len() as int;
    assert forall|ii: int, jj: int| 0 <= ii < jj < es2.len() implies (#[trigger] es2[ii]).key != (
    #[trigger] es2[jj]).key by {
        if jj < n {
            assert(es[ii].key != es[jj].key);
        } else {
            assert(es[ii].key != e.key);
        }
    }
    assert(es2[n].key == e.key);
    lemma_bucket_lookup(es2, e.key, n);
    assert forall|k: i64|
        k != e.key implies has_bucket(es2, k) == has_bucket(es, k) && (has_bucket(es, k)
        ==> bucket_not_before(es2, k) == bucket_not_before(es, k)) by {
        if has_bucket(es2, k) {
            let k2 = choose|k2: int| 0 <= k2 < es2.len() && (#[trigger] es2[k2]).key == k;
            assert(k2 < n);
            assert(es[k2].key == k);
        }
        if has_bucket(es, k) {
            let k2 = choose|k2: int| 0 <= k2 < es.len() && (#[trigger] es[k2]).key == k;
            assert(es2[k2] == es[k2]);
            lemma_bucket_lookup(es2, k, k2);
            let k3 = choose|k3: int| 0 <= k3 < es.len() && (#[trigger] es[k3]).key == k;
            if k3 != k2 {
                assert(es[k3].key != es[k2].key);
            }
        }
    }
}

/// Law: a fresh key's first check within a scope passes.
pub proof fn lemma_fresh_key_allowed(es: Seq<BucketEntry>, key: i64, now_ms: u64)
    requires
        !has_bucket(es, key),
    ensures
        allowed_at(es, key, now_ms),
{
}

/// Law: after a passed check at `t`, a second check of the same key before
/// `t` plus the period is denied.
pub proof fn lemma_immediate_retry_denied(
    es: Seq<BucketEntry>,
    key: i64,
    t: u64,
    period_ms: u64,
    t2: u64,
)
    requires
        has_bucket(es, key),
        bucket_not_before(es, key) == t + period_ms,
        t2 < t + period_ms,
    ensures
        !allowed_at(es, key, t2),
{
}

/// Law: once the period has elapsed since the passed check at `t`, the next
/// check of the key passes again.
pub proof fn lemma_refill_allows(es: Seq<BucketEntry>, key: i64, t: u64, period_ms: u64, t2: u64)
    requires
        has_bucket(es, key),
        bucket_not_before(es, key) == t + period_ms,
        t2 >= t + period_ms,
    ensures
        allowed_at(es, key, t2),
{
}

/// The two gateway scopes: "commands" gates every user command, "summarize"
/// additionally gates summary generation.
pub struct RateLimiters {
    pub commands: KeyedRateLimiter,
    pub summarize: KeyedRateLimiter,
}

impl RateLimiters {
    /// The gateway's scopes: one command per user per second, one summary
    /// per user per hour.
    pub fn new() -> (r: RateLimiters)
        ensures
            r.commands.wf(),
            r.summarize.wf(),
            r.commands.period_ms == COMMANDS_PERIOD_MS,
            r.summarize.period_ms == SUMMARIZE_PERIOD_MS,
            r.commands.entries@.len() == 0,
            r.summarize.entries@.len() == 0,
    {
        RateLimiters {
            commands: KeyedRateLimiter::new(COMMANDS_PERIOD_MS),
            summarize: KeyedRateLimiter::new(SUMMARIZE_PERIOD_MS),
        }
    }
}

} // verus!
