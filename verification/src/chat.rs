//! Chat channel opcodes and per-account token-bucket rate limiting.
use vstd::prelude::*;
use std::collections::HashMap;

use crate::error::WorldError;

verus! {

broadcast use vstd::std_specs::hash::group_hash_axioms;

/// Chat channel communication scope.
#[derive(Debug, Clone, Copy, PartialEq, Eq, Hash, Structural)]
pub enum ChatChannel {
    /// Local spatial proximity broadcast (opcode 0).
    SpatialProximity,
    /// Party channel (opcode 1).
    Party,
    /// Direct whisper (opcode 2).
    Whisper,
    /// Zone-wide broadcast (opcode 3).
    GlobalShout,
}

impl ChatChannel {
    /// Wire opcode of a channel.
    pub open spec fn spec_as_u8(self) -> u8 {
        match self {
            ChatChannel::SpatialProximity => 0,
            ChatChannel::Party => 1,
            ChatChannel::Whisper => 2,
            ChatChannel::GlobalShout => 3,
        }
    }

    /// Parses a channel from its opcode; opcodes above 3 are rejected.
    pub fn from_u8(val: u8) -> (c: Option<Self>)
        ensures
            val <= 3 ==> (c matches Some(ch) && ch.spec_as_u8() == val),
            val > 3 ==> c is None,
    {
        match val {
            0 => Some(ChatChannel::SpatialProximity),
            1 => Some(ChatChannel::Party),
            2 => Some(ChatChannel::Whisper),
            3 => Some(ChatChannel::GlobalShout),
            _ => None,
        }
    }

    /// Returns the raw opcode of the channel.
    pub fn as_u8(self) -> (v: u8)
        ensures
            v == self.spec_as_u8(),
    {
        match self {
            ChatChannel::SpatialProximity => 0,
            ChatChannel::Party => 1,
            ChatChannel::Whisper => 2,
            ChatChannel::GlobalShout => 3,
        }
    }
}

/// Token bucket of one account.
#[derive(Debug, Clone, Copy, PartialEq, Eq, Structural)]
pub struct TokenBucket {
    /// Tokens currently available.
    pub tokens: u32,
    /// Tick up to which replenishment has been credited.
    pub last_replenish_tick: u64,
}

/// Bucket of `account_id` before replenishing at `tick` (a fresh, full bucket if unknown).
pub open spec fn current_bucket(
    buckets: Map<u64, TokenBucket>,
    capacity: u32,
    account_id: u64,
    tick: u64,
) -> TokenBucket {
    if buckets.contains_key(account_id) {
        buckets[account_id]
    } else {
        TokenBucket { tokens: capacity, last_replenish_tick: tick }
    }
}

/// Tokens regained by bucket `b` between its last credit and `tick`, as a `u32` count.
pub open spec fn regained_tokens(b: TokenBucket, interval: u64, tick: u64) -> u32 {
    ((tick - b.last_replenish_tick) / interval as int) as u32
}

/// Bucket of `account_id` after replenishing up to `tick` (a fresh, full bucket if unknown).
pub open spec fn replenished(
    buckets: Map<u64, TokenBucket>,
    capacity: u32,
    interval: u64,
    account_id: u64,
    tick: u64,
) -> TokenBucket {
    let b = current_bucket(buckets, capacity, account_id, tick);
    if tick > b.last_replenish_tick {
        let added = regained_tokens(b, interval, tick);
        if added > 0 {
            let sum = b.tokens as int + added as int;
            TokenBucket {
                tokens: if sum > capacity as int { capacity } else { sum as u32 },
                last_replenish_tick: (b.last_replenish_tick + added as int * interval as int) as u64,
            }
        } else {
            b
        }
    } else {
        b
    }
}

/// Per-account chat anti-spam rate limiter: `capacity` burst messages, one token regained per
/// `replenish_interval_ticks`.
#[derive(Debug, Clone)]
pub struct ChatRateLimiter {
    capacity: u32,
    replenish_interval_ticks: u64,
    buckets: HashMap<u64, TokenBucket>,
}

impl ChatRateLimiter {
    /// Burst capacity.
    pub closed spec fn spec_capacity(&self) -> u32 {
        self.capacity
    }

    /// Replenish interval in ticks (at least 1).
    pub closed spec fn spec_interval(&self) -> u64 {
        self.replenish_interval_ticks
    }

    /// Buckets of accounts seen so far.
    pub closed spec fn spec_buckets(&self) -> Map<u64, TokenBucket> {
        self.buckets@
    }

    /// The interval is positive, and no bucket holds more tokens than the capacity.
    pub open spec fn wf(&self) -> bool {
        &&& self.spec_interval() >= 1
        &&& forall|k: u64| #[trigger] self.spec_buckets().contains_key(k)
            ==> self.spec_buckets()[k].tokens <= self.spec_capacity()
    }

    /// Constructs a limiter; an interval of 0 is raised to 1.
    pub fn new(capacity: u32, replenish_interval_ticks: u64) -> (l: Self)
        ensures
            l.wf(),
            l.spec_capacity() == capacity,
            l.spec_interval() == (if replenish_interval_ticks == 0 { 1 } else { replenish_interval_ticks }),
            l.spec_buckets() == Map::<u64, TokenBucket>::empty(),
    {
        ChatRateLimiter {
            capacity,
            replenish_interval_ticks: if replenish_interval_ticks == 0 { 1 } else { replenish_interval_ticks },
            buckets: HashMap::new(),
        }
    }

    /// Replenishes the account's bucket up to `current_tick` (capped at the capacity, however
    /// many tokens were regained), then spends one token; an empty bucket refuses the message and
    /// keeps the replenished state.
    pub fn check_and_consume(&mut self, account_id: u64, current_tick: u64) -> (r: Result<(), WorldError>)
        requires
            old(self).wf(),
        ensures
            final(self).wf(),
            final(self).spec_capacity() == old(self).spec_capacity(),
            final(self).spec_interval() == old(self).spec_interval(),
            ({
                let b = replenished(
                    old(self).spec_buckets(),
                    old(self).spec_capacity(),
                    old(self).spec_interval(),
                    account_id,
                    current_tick,
                );
                if b.tokens == 0 {
                    r == Err::<(), WorldError>(WorldError::TransactionAborted("Chat rate limit exceeded"))
                        && final(self).spec_buckets() == old(self).spec_buckets().insert(account_id, b)
                } else {
                    r is Ok && final(self).spec_buckets() == old(self).spec_buckets().insert(
                        account_id,
                        TokenBucket { tokens: (b.tokens - 1) as u32, ..b },
                    )
                }
            }),
    {
        proof {
            if self.spec_buckets().contains_key(account_id) {
                assert(self.spec_buckets()[account_id].tokens <= self.capacity);
            }
        }
        let mut bucket = match self.buckets.get(&account_id) {
            Some(b) => *b,
            None => TokenBucket { tokens: self.capacity, last_replenish_tick: current_tick },
        };
        if current_tick > bucket.last_replenish_tick {
            let elapsed = current_tick - bucket.last_replenish_tick;
            let added_tokens = (elapsed / self.replenish_interval_ticks) as u32;
            if added_tokens > 0 {
                let sum = bucket.tokens.saturating_add(added_tokens);
                bucket.tokens = if sum > self.capacity { self.capacity } else { sum };
                assert((added_tokens as u64) * self.replenish_interval_ticks <= elapsed) by (nonlinear_arith)
                    requires
                        added_tokens as u64 <= elapsed / self.replenish_interval_ticks,
                        self.replenish_interval_ticks >= 1,
                {
                }
                bucket.last_replenish_tick = bucket.last_replenish_tick + (added_tokens as u64)
                    * self.replenish_interval_ticks;
            }
        }
        if bucket.tokens == 0 {
            self.buckets.insert(account_id, bucket);
            return Err(WorldError::TransactionAborted("Chat rate limit exceeded"));
        }
        bucket.tokens = bucket.tokens - 1;
        self.buckets.insert(account_id, bucket);
        Ok(())
    }
}

impl Default for ChatRateLimiter {
    /// Five burst messages, one regained every 20 ticks.
    fn default() -> (l: Self)
        ensures
            l.wf(),
            l.spec_capacity() == 5,
            l.spec_interval() == 20,
            l.spec_buckets() == Map::<u64, TokenBucket>::empty(),
    {
        ChatRateLimiter::new(5, 20)
    }
}

/// Replenishing a known bucket at the tick it was last credited leaves it unchanged, so
/// messages sent within one tick draw on the same tokens.
pub proof fn lemma_same_tick_spends_one_token(
    buckets: Map<u64, TokenBucket>,
    capacity: u32,
    interval: u64,
    account_id: u64,
    tick: u64,
)
    requires
        interval >= 1,
        buckets.contains_key(account_id),
        buckets[account_id].last_replenish_tick == tick,
    ensures
        replenished(buckets, capacity, interval, account_id, tick) == buckets[account_id],
{
}

} // verus!
