//! The retrying fan-out delivery policy.
//!
//! Each relay event is delivered to its recipients strictly in order. A
//! recipient's send is retried with exponential backoff under a fixed
//! per-attempt timeout; when the attempts are exhausted the failure is
//! recorded and delivery moves to the next recipient, so one recipient can
//! never block the others. A fixed pacing delay separates consecutive
//! recipients. The waiting and sending are the application's; every decision
//! — whom to send to, after what delay, and what to record — is made here.

use vstd::prelude::*;

verus! {

/// The fixed time budget of one send attempt, in milliseconds.
pub const SEND_TIMEOUT_MS: u64 = 30000;

/// The pause between consecutive recipients of one fan-out, in milliseconds.
pub const PACING_DELAY_MS: u64 = 1000;

/// How many attempts one recipient gets before the failure is recorded.
pub const DEFAULT_MAX_ATTEMPTS: u32 = 5;

/// The backoff delay doubles with each retry of a recipient.
pub open spec fn spec_backoff_delay(base_delay_ms: u64, attempt: u32) -> int
    decreases attempt,
{
    if attempt == 0 {
        0
    } else if attempt == 1 {
        base_delay_ms as int
    } else {
        2 * spec_backoff_delay(base_delay_ms, (attempt - 1) as u32)
    }
}

/// An exponential-backoff retry policy with a bounded number of attempts.
pub struct RetryPolicy {
    pub base_delay_ms: u64,
    pub max_attempts: u32,
}

impl RetryPolicy {
    /// The policy the gateway uses: backoff from `base_delay_ms`, a bounded
    /// number of attempts per recipient.
    pub fn exponential(base_delay_ms: u64) -> (r: RetryPolicy)
        ensures
            r.base_delay_ms == base_delay_ms,
            r.max_attempts == DEFAULT_MAX_ATTEMPTS,
    {
        RetryPolicy { base_delay_ms, max_attempts: DEFAULT_MAX_ATTEMPTS }
    }

    /// The delay before the given attempt of one recipient: none before the
    /// first, then doubling from the base delay.
    pub fn delay_before_attempt(&self, attempt: u32) -> (r: u64)
        requires
            attempt <= 32,
            self.base_delay_ms <= u32::MAX,
        ensures
            r == spec_backoff_delay(self.base_delay_ms, attempt),
    {
        if attempt == 0 {
            0
        } else {
            let mut d: u64 = self.base_delay_ms;
            let mut k: u32 = 1;
            while k < attempt
                invariant
                    1 <= k <= attempt <= 32,
                    self.base_delay_ms <= u32::MAX,
                    d == spec_backoff_delay(self.base_delay_ms, k),
                decreases attempt - k,
            {
                proof {
                    lemma_backoff_exact(self.base_delay_ms, k);
                    lemma_pow2_bound((k - 1) as nat);
                    assert(d <= 0xffff_ffff * 0x8000_0000) by (nonlinear_arith)
                        requires
                            d == self.base_delay_ms * pow2_int(k - 1),
                            self.base_delay_ms <= 0xffff_ffff,
                            0 < pow2_int(k - 1) <= 0x8000_0000,
                    ;
                }
                d = d * 2;
                k = k + 1;
            }
            d
        }
    }
}

/// Two to the given power.
pub open spec fn pow2_int(e: int) -> int
    decreases e,
{
    if e <= 0 {
        1
    } else {
        2 * pow2_int(e - 1)
    }
}

/// The backoff delay is exactly the base times a power of two.
proof fn lemma_backoff_exact(base_delay_ms: u64, attempt: u32)
    requires
        1 <= attempt,
    ensures
        spec_backoff_delay(base_delay_ms, attempt) == base_delay_ms * pow2_int(attempt - 1),
    decreases attempt,
{
    if attempt == 1 {
        assert(pow2_int(0) == 1);
    } else {
        lemma_backoff_exact(base_delay_ms, (attempt - 1) as u32);
        assert(pow2_int(attempt - 1) == 2 * pow2_int(attempt - 2));
        assert(2 * (base_delay_ms * pow2_int(attempt - 2)) == base_delay_ms * (2 * pow2_int(
            attempt - 2,
        ))) by (nonlinear_arith);
    }
}

/// Powers of two are positive and monotone in the exponent.
proof fn lemma_pow2_le(a: int, b: int)
    requires
        0 <= a <= b,
    ensures
        1 <= pow2_int(a) <= pow2_int(b),
    decreases b,
{
    if a == b {
        if a > 0 {
            lemma_pow2_le(a - 1, a - 1);
        }
    } else {
        lemma_pow2_le(a, b - 1);
    }
}

proof fn lemma_pow2_bound(e: nat)
    requires
        e <= 31,
    ensures
        1 <= pow2_int(e as int) <= 0x8000_0000,
{
    lemma_pow2_le(e as int, 31);
    assert(pow2_int(31) == 0x8000_0000) by {
        reveal_with_fuel(pow2_int, 33);
    }
}

/// The backoff delay never exceeds the base times two to the 31st.
pub proof fn lemma_backoff_delay_bound(base_delay_ms: u64, attempt: u32)
    requires
        attempt <= 32,
        base_delay_ms <= u32::MAX,
    ensures
        0 <= spec_backoff_delay(base_delay_ms, attempt) <= 0xffff_ffff * 0x8000_0000,
{
    if attempt >= 1 {
        lemma_backoff_exact(base_delay_ms, attempt);
        lemma_pow2_bound((attempt - 1) as nat);
        assert(base_delay_ms * pow2_int(attempt - 1) <= 0xffff_ffff * 0x8000_0000)
            by (nonlinear_arith)
            requires
                base_delay_ms <= 0xffff_ffff,
                0 < pow2_int(attempt - 1) <= 0x8000_0000,
        ;
        assert(base_delay_ms * pow2_int(attempt - 1) >= 0) by (nonlinear_arith)
            requires
                0 < pow2_int(attempt - 1),
        ;
    }
}

/// The record of one recipient's delivery.
pub struct DeliveryRecord {
    pub recipient: i64,
    pub attempts: u32,
    pub delivered: bool,
}

/// What the application should do next in a fan-out.
pub enum FanoutAction {
    /// Attempt a send to `recipient`, after waiting `delay_before_ms`, with
    /// the fixed per-attempt timeout.
    Send { recipient: i64, timeout_ms: u64, delay_before_ms: u64 },
    /// Every recipient has been served.
    Done,
}

/// How one send attempt ended, as the application observed it.
pub enum SendOutcome {
    Delivered,
    Failed,
}

/// The state of one relay event's fan-out: which recipient is being served,
/// how many attempts it has had, and the per-recipient log so far.
pub struct FanoutState {
    pub policy: RetryPolicy,
    pub recipients: Vec<i64>,
    pub idx: usize,
    pub attempt: u32,
    pub log: Vec<DeliveryRecord>,
}

impl FanoutState {
    /// Recipients are served strictly in order: the log grows one record per
    /// finished recipient, in the recipients' own order, and attempts stay
    /// within the policy's bound.
    pub open spec fn wf(&self) -> bool {
        &&& self.idx <= self.recipients@.len()
        &&& self.log@.len() == self.idx
        &&& self.attempt < self.policy.max_attempts
        &&& 1 <= self.policy.max_attempts <= 32
        &&& self.idx < self.recipients@.len() || self.attempt == 0
        &&& forall|k: int|
            0 <= k < self.log@.len() ==> (#[trigger] self.log@[k]).recipient
                == self.recipients@[k]
        &&& forall|k: int|
            0 <= k < self.log@.len() ==> 1 <= (#[trigger] self.log@[k]).attempts
                <= self.policy.max_attempts
        &&& forall|k: int|
            0 <= k < self.log@.len() ==> ((#[trigger] self.log@[k]).delivered || self.log@[k].attempts
                == self.policy.max_attempts)
    }

    /// Start a fan-out over the given recipients.
    pub fn new(policy: RetryPolicy, recipients: Vec<i64>) -> (r: FanoutState)
        requires
            1 <= policy.max_attempts <= 32,
        ensures
            r.wf(),
            r.policy == policy,
            r.recipients@ == recipients@,
            r.idx == 0,
            r.attempt == 0,
            r.log@.len() == 0,
    {
        FanoutState { policy, recipients, idx: 0, attempt: 0, log: Vec::new() }
    }

    /// Whether every recipient has been served.
    pub fn is_done(&self) -> (r: bool)
        ensures
            r == (self.idx == self.recipients@.len()),
    {
        self.idx == self.recipients.len()
    }

    /// The next thing to do: a send to the current recipient — with the
    /// backoff delay of the current attempt, plus the pacing delay before a
    /// new recipient that is not the first — or nothing when done.
    pub fn next_action(&self) -> (r: FanoutAction)
        requires
            self.wf(),
            self.policy.base_delay_ms <= u32::MAX,
        ensures
            self.idx == self.recipients@.len() ==> r matches FanoutAction::Done,
            self.idx < self.recipients@.len() ==> (r matches FanoutAction::Send {
                recipient,
                timeout_ms,
                delay_before_ms,
            } && recipient == self.recipients@[self.idx as int] && timeout_ms == SEND_TIMEOUT_MS
                && delay_before_ms == spec_backoff_delay(self.policy.base_delay_ms, self.attempt)
                + if self.attempt == 0 && self.idx > 0 {
                PACING_DELAY_MS as int
            } else {
                0
            }),
    {
        if self.idx == self.recipients.len() {
            return FanoutAction::Done;
        }
        let backoff = self.policy.delay_before_attempt(self.attempt);
        let pacing: u64 = if self.attempt == 0 && self.idx > 0 {
            PACING_DELAY_MS
        } else {
            0
        };
        proof {
            lemma_backoff_delay_bound(self.policy.base_delay_ms, self.attempt);
        }
        FanoutAction::Send {
            recipient: self.recipients[self.idx],
            timeout_ms: SEND_TIMEOUT_MS,
            delay_before_ms: backoff + pacing,
        }
    }

    /// Record how the pending send attempt ended. A delivery or an exhausted
    /// recipient is logged and the fan-out advances to the next recipient; a
    /// failure with attempts to spare only bumps the attempt counter.
    pub fn record_outcome(&mut self, outcome: SendOutcome)
        requires
            old(self).wf(),
            old(self).idx < old(self).recipients@.len(),
        ensures
            final(self).wf(),
            final(self).policy == old(self).policy,
            final(self).recipients@ == old(self).recipients@,
            ({
                let served = old(self).recipients@[old(self).idx as int];
                match outcome {
                    SendOutcome::Delivered => {
                        &&& final(self).idx == old(self).idx + 1
                        &&& final(self).attempt == 0
                        &&& final(self).log@ == old(self).log@.push(
                            DeliveryRecord {
                                recipient: served,
                                attempts: (old(self).attempt + 1) as u32,
                                delivered: true,
                            },
                        )
                    },
                    SendOutcome::Failed => {
                        if old(self).attempt + 1 < old(self).policy.max_attempts {
                            &&& final(self).idx == old(self).idx
                            &&& final(self).attempt == old(self).attempt + 1
                            &&& final(self).log@ == old(self).log@
                        } else {
                            &&& final(self).idx == old(self).idx + 1
                            &&& final(self).attempt == 0
                            &&& final(self).log@ == old(self).log@.push(
                                DeliveryRecord {
                                    recipient: served,
                                    attempts: old(self).policy.max_attempts,
                                    delivered: false,
                                },
                            )
                        }
                    },
                }
            }),
    {
        let n = self.recipients.len();
        match outcome {
            SendOutcome::Delivered => {
                let record = DeliveryRecord {
                    recipient: self.recipients[self.idx],
                    attempts: self.attempt + 1,
                    delivered: true,
                };
                self.log.push(record);
                self.idx = self.idx + 1;
                self.attempt = 0;
            },
            SendOutcome::Failed => {
                if self.attempt + 1 < self.policy.max_attempts {
                    self.attempt = self.attempt + 1;
                } else {
                    let record = DeliveryRecord {
                        recipient: self.recipients[self.idx],
                        attempts: self.policy.max_attempts,
                        delivered: false,
                    };
                    self.log.push(record);
                    self.idx = self.idx + 1;
                    self.attempt = 0;
                }
            },
        }
    }
}

} // verus!
