//! The retry policy of a subscribe call. Each remote attempt's outcome is fed
//! in; the session answers whether the channel is now subscribed, after how
//! long to try again, or with which error to give up.

use vstd::prelude::*;
use vstd::arithmetic::power2::{pow2, lemma_pow2_unfold};
use crate::text::{contains_seq, contains_text};

verus! {

/// The kind of a failed subscribe call, read from its error text.
#[derive(Debug, Clone, Copy, PartialEq, Eq, Structural)]
pub enum FailureClass {
    QuotaExceeded,
    PermissionDenied,
    ChannelNotFound,
    Duplicate,
    ServerError,
    Other,
}

/// Why a subscription was given up.
#[derive(Debug, Clone, Copy, PartialEq, Eq, Structural)]
pub enum SubscribeError {
    /// The quota or rate limit was still hit on the last allowed attempt.
    QuotaExceeded { retries: u32 },
    PermissionDenied,
    ChannelNotFound,
    /// The server still failed on the last allowed attempt.
    ServerError { retries: u32 },
    /// A failure of no retryable kind.
    Rejected,
    /// No attempt was allowed at all.
    NoAttempts,
}

/// What to do after an attempt.
#[derive(Debug, Clone, Copy, PartialEq, Eq, Structural)]
pub enum SubscribeStep {
    /// The channel is subscribed (or already was).
    Subscribed,
    /// Wait this long, then make the next attempt.
    RetryAfter { delay_ms: u64 },
    /// Wait this long, then report the error.
    GiveUp { delay_ms: u64, error: SubscribeError },
}

/// The class of an error text; the first matching rule wins.
pub open spec fn class_of(msg: Seq<char>) -> FailureClass {
    if contains_seq(msg, "quotaExceeded"@) || contains_seq(msg, "rateLimitExceeded"@) {
        FailureClass::QuotaExceeded
    } else if contains_seq(msg, "forbidden"@) || contains_seq(msg, "403"@) {
        FailureClass::PermissionDenied
    } else if contains_seq(msg, "channelNotFound"@) || contains_seq(msg, "404"@) {
        FailureClass::ChannelNotFound
    } else if contains_seq(msg, "subscriptionDuplicate"@) || contains_seq(msg, "already subscribed"@) {
        FailureClass::Duplicate
    } else if contains_seq(msg, "backend"@) || contains_seq(msg, "internal"@) {
        FailureClass::ServerError
    } else {
        FailureClass::Other
    }
}

/// Exponential backoff after a quota failure: `2^attempt * 1000` ms, held at `u64::MAX`.
pub open spec fn quota_delay(attempt: nat) -> u64 {
    if pow2(attempt) * 1000 <= u64::MAX {
        (pow2(attempt) * 1000) as u64
    } else {
        u64::MAX
    }
}

/// Linear backoff after a server failure: `1000 + attempt * 500` ms.
pub open spec fn server_delay(attempt: nat) -> int {
    1000 + attempt as int * 500
}

/// The class of an attempt's outcome; `None` for success.
pub open spec fn outcome_class(outcome: Result<(), String>) -> Option<FailureClass> {
    match outcome {
        Ok(()) => None,
        Err(m) => Some(class_of(m@)),
    }
}

/// The decision after attempt number `attempt` (from 0) of `max_retries`.
pub open spec fn step_for(attempt: u32, max_retries: u32, class: Option<FailureClass>) -> SubscribeStep {
    let last = attempt + 1 >= max_retries;
    match class {
        None => SubscribeStep::Subscribed,
        Some(FailureClass::Duplicate) => SubscribeStep::Subscribed,
        Some(FailureClass::QuotaExceeded) => if last {
            SubscribeStep::GiveUp {
                delay_ms: quota_delay(attempt as nat),
                error: SubscribeError::QuotaExceeded { retries: max_retries },
            }
        } else {
            SubscribeStep::RetryAfter { delay_ms: quota_delay(attempt as nat) }
        },
        Some(FailureClass::ServerError) => if last {
            SubscribeStep::GiveUp {
                delay_ms: server_delay(attempt as nat) as u64,
                error: SubscribeError::ServerError { retries: max_retries },
            }
        } else {
            SubscribeStep::RetryAfter { delay_ms: server_delay(attempt as nat) as u64 }
        },
        Some(FailureClass::PermissionDenied) => SubscribeStep::GiveUp {
            delay_ms: 0,
            error: SubscribeError::PermissionDenied,
        },
        Some(FailureClass::ChannelNotFound) => SubscribeStep::GiveUp {
            delay_ms: 0,
            error: SubscribeError::ChannelNotFound,
        },
        Some(FailureClass::Other) => SubscribeStep::GiveUp {
            delay_ms: 0,
            error: SubscribeError::Rejected,
        },
    }
}

/// Reads the class of a failure from its error text.
pub fn classify_failure(message: &str) -> (r: FailureClass)
    ensures
        r == class_of(message@),
{
    if contains_text(message, "quotaExceeded") || contains_text(message, "rateLimitExceeded") {
        FailureClass::QuotaExceeded
    } else if contains_text(message, "forbidden") || contains_text(message, "403") {
        FailureClass::PermissionDenied
    } else if contains_text(message, "channelNotFound") || contains_text(message, "404") {
        FailureClass::ChannelNotFound
    } else if contains_text(message, "subscriptionDuplicate") || contains_text(
        message,
        "already subscribed",
    ) {
        FailureClass::Duplicate
    } else if contains_text(message, "backend") || contains_text(message, "internal") {
        FailureClass::ServerError
    } else {
        FailureClass::Other
    }
}

/// Delay before retrying after a quota failure on attempt `attempt`.
pub fn quota_backoff_ms(attempt: u32) -> (r: u64)
    ensures
        r == quota_delay(attempt as nat),
{
    let mut d: u64 = 1000;
    let mut i: u32 = 0;
    proof {
        assert(pow2(0) == 1) by {
            vstd::arithmetic::power2::lemma2_to64();
        }
    }
    while i < attempt
        invariant
            i <= attempt,
            d == quota_delay(i as nat),
        decreases attempt - i,
    {
        proof {
            lemma_pow2_unfold((i + 1) as nat);
        }
        if d > u64::MAX / 2 {
            d = u64::MAX;
        } else {
            d = d * 2;
        }
        i = i + 1;
    }
    d
}

/// Delay before retrying after a server failure on attempt `attempt`.
pub fn server_backoff_ms(attempt: u32) -> (r: u64)
    ensures
        r == server_delay(attempt as nat),
{
    1000 + (attempt as u64) * 500
}

/// The state of one channel's subscribe attempts.
pub struct SubscribeSession {
    pub max_retries: u32,
    pub attempt: u32,
}

impl SubscribeSession {
    pub fn new(max_retries: u32) -> (r: SubscribeSession)
        ensures
            r.max_retries == max_retries,
            r.attempt == 0,
    {
        SubscribeSession { max_retries, attempt: 0 }
    }

    /// Whether another attempt is allowed; without one the session ends with
    /// [`SubscribeError::NoAttempts`].
    pub fn may_attempt(&self) -> (r: bool)
        ensures
            r == (self.attempt < self.max_retries),
    {
        self.attempt < self.max_retries
    }

    /// Takes the outcome of the current attempt (the remote error text on
    /// failure) and decides what follows.
    pub fn record(&mut self, outcome: &Result<(), String>) -> (r: SubscribeStep)
        requires
            old(self).attempt < old(self).max_retries,
        ensures
            r == step_for(old(self).attempt, old(self).max_retries, outcome_class(*outcome)),
            final(self).max_retries == old(self).max_retries,
            final(self).attempt == if r is RetryAfter {
                old(self).attempt + 1
            } else {
                old(self).attempt as int
            },
    {
        let attempt = self.attempt;
        let last = attempt + 1 >= self.max_retries;
        let step = match outcome {
            Ok(()) => SubscribeStep::Subscribed,
            Err(m) => match classify_failure(m.as_str()) {
                FailureClass::Duplicate => SubscribeStep::Subscribed,
                FailureClass::QuotaExceeded => {
                    let delay_ms = quota_backoff_ms(attempt);
                    if last {
                        SubscribeStep::GiveUp {
                            delay_ms,
                            error: SubscribeError::QuotaExceeded { retries: self.max_retries },
                        }
                    } else {
                        SubscribeStep::RetryAfter { delay_ms }
                    }
                },
                FailureClass::ServerError => {
                    let delay_ms = server_backoff_ms(attempt);
                    if last {
                        SubscribeStep::GiveUp {
                            delay_ms,
                            error: SubscribeError::ServerError { retries: self.max_retries },
                        }
                    } else {
                        SubscribeStep::RetryAfter { delay_ms }
                    }
                },
                FailureClass::PermissionDenied => SubscribeStep::GiveUp {
                    delay_ms: 0,
                    error: SubscribeError::PermissionDenied,
                },
                FailureClass::ChannelNotFound => SubscribeStep::GiveUp {
                    delay_ms: 0,
                    error: SubscribeError::ChannelNotFound,
                },
                FailureClass::Other => SubscribeStep::GiveUp {
                    delay_ms: 0,
                    error: SubscribeError::Rejected,
                },
            },
        };
        if let SubscribeStep::RetryAfter { .. } = step {
            self.attempt = attempt + 1;
        }
        step
    }
}

} // verus!
