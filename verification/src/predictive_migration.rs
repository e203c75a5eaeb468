//! Predictive seam migration: single-use pre-authorization tokens issued before an entity's
//! projected boundary crossing and consumed when the crossing happens.
use vstd::prelude::*;

use crate::adaptive_shard::{is_sector, AdaptiveShardManager};
use crate::error::WorldError;
use crate::slots::{first_index, lemma_first_index, lemma_first_index_is, lemma_first_index_none};

verus! {

/// Maximum number of pre-authorization tokens kept at once.
pub const MAX_ACTIVE_PRE_AUTHS: usize = 512;

/// Default projection window in milliseconds.
pub const DEFAULT_LOOKAHEAD_MILLIS: u32 = 500;

/// Default token lifetime in ticks.
pub const DEFAULT_PRE_AUTH_TTL_TICKS: u64 = 30;

/// Pre-authorization for a predicted seam crossing.
#[derive(Debug, Clone, Copy, PartialEq, Eq, Structural)]
pub struct PredictiveMigrationPreAuth {
    /// Token identifier.
    pub token_id: u64,
    /// Entity expected to cross.
    pub entity_id: u32,
    /// Shard the entity leaves.
    pub source_shard: u32,
    /// Shard the entity enters.
    pub target_shard: u32,
    /// Predicted destination sector X.
    pub target_sector_x: i32,
    /// Predicted destination sector Z.
    pub target_sector_z: i32,
    /// Tick of issue.
    pub issued_tick: u64,
    /// Last tick at which the token is valid.
    pub expiry_tick: u64,
    /// Whether a crossing already used the token.
    pub is_consumed: bool,
}

/// Slot predicate: the slot holds token `id`.
pub open spec fn holds_token(id: u64) -> spec_fn(Option<PredictiveMigrationPreAuth>) -> bool {
    |s: Option<PredictiveMigrationPreAuth>| s matches Some(t) && t.token_id == id
}

/// Slot predicate: the slot is free.
pub open spec fn free_token_slot() -> spec_fn(Option<PredictiveMigrationPreAuth>) -> bool {
    |s: Option<PredictiveMigrationPreAuth>| s is None
}

/// A token that can no longer be used at `tick`.
pub open spec fn token_stale(t: PredictiveMigrationPreAuth, tick: u64) -> bool {
    t.is_consumed || tick > t.expiry_tick
}

/// Slot predicate: the slot holds a stale token.
pub open spec fn stale_token_slot(tick: u64) -> spec_fn(Option<PredictiveMigrationPreAuth>) -> bool {
    |s: Option<PredictiveMigrationPreAuth>| s matches Some(t) && token_stale(t, tick)
}

/// Slot predicate: a live token for `entity_id` towards `target_shard`.
pub open spec fn live_token_for(entity_id: u32, target_shard: u32, tick: u64) -> spec_fn(
    Option<PredictiveMigrationPreAuth>,
) -> bool {
    |s: Option<PredictiveMigrationPreAuth>|
        s matches Some(t) && t.entity_id == entity_id && t.target_shard == target_shard
            && !t.is_consumed && tick <= t.expiry_tick
}

/// Outcome of validating token `token_id` for a crossing, and the token slots afterwards.
pub open spec fn spec_validate(
    tokens: Seq<Option<PredictiveMigrationPreAuth>>,
    token_id: u64,
    entity_id: u32,
    target_shard: u32,
    tick: u64,
) -> (Result<PredictiveMigrationPreAuth, WorldError>, Seq<Option<PredictiveMigrationPreAuth>>) {
    let k = first_index(tokens, holds_token(token_id));
    if k < 0 {
        (Err(WorldError::PreAuthInvalid), tokens)
    } else {
        let t = tokens[k]->0;
        if t.entity_id != entity_id || t.target_shard != target_shard || t.is_consumed {
            (Err(WorldError::PreAuthInvalid), tokens)
        } else if tick > t.expiry_tick {
            (Err(WorldError::PreAuthExpired), tokens)
        } else {
            let used = PredictiveMigrationPreAuth { is_consumed: true, ..t };
            (Ok(used), tokens.update(k, Some(used)))
        }
    }
}

/// Slot a new token is stored in: the first free slot, else the first stale one, else slot 0.
pub open spec fn storage_slot(tokens: Seq<Option<PredictiveMigrationPreAuth>>, tick: u64) -> int {
    let f = first_index(tokens, free_token_slot());
    if f >= 0 {
        f
    } else {
        let s = first_index(tokens, stale_token_slot(tick));
        if s >= 0 {
            s
        } else {
            0
        }
    }
}

/// The slots after purging at `tick`: stale tokens are dropped, everything else stays.
pub open spec fn purged(tokens: Seq<Option<PredictiveMigrationPreAuth>>, tick: u64) -> Seq<
    Option<PredictiveMigrationPreAuth>,
> {
    Seq::new(
        tokens.len(),
        |i: int|
            if stale_token_slot(tick)(tokens[i]) {
                None
            } else {
                tokens[i]
            },
    )
}

/// Seam monitor issuing and checking pre-authorization tokens.
#[derive(Debug)]
pub struct PredictiveSeamPredictor {
    tokens: [Option<PredictiveMigrationPreAuth>; 512],
    next_token_id: u64,
    lookahead_millis: u32,
    token_ttl_ticks: u64,
}

impl PredictiveSeamPredictor {
    /// Token slots.
    pub closed spec fn spec_tokens(&self) -> Seq<Option<PredictiveMigrationPreAuth>> {
        self.tokens@
    }

    /// Identifier the next issued token receives.
    pub closed spec fn spec_next_token_id(&self) -> u64 {
        self.next_token_id
    }

    /// Projection window in milliseconds.
    pub closed spec fn spec_lookahead(&self) -> u32 {
        self.lookahead_millis
    }

    /// Token lifetime in ticks.
    pub closed spec fn spec_ttl(&self) -> u64 {
        self.token_ttl_ticks
    }

    /// A monitor with no tokens whose first token gets identifier 1.
    pub fn new(lookahead_millis: u32, token_ttl_ticks: u64) -> (p: Self)
        ensures
            p.spec_tokens() == Seq::new(512, |i: int| None::<PredictiveMigrationPreAuth>),
            p.spec_next_token_id() == 1,
            p.spec_lookahead() == lookahead_millis,
            p.spec_ttl() == token_ttl_ticks,
    {
        let p = PredictiveSeamPredictor {
            tokens: [None; 512],
            next_token_id: 1,
            lookahead_millis,
            token_ttl_ticks,
        };
        assert(p.tokens@ =~= Seq::new(512, |i: int| None::<PredictiveMigrationPreAuth>));
        p
    }

    /// Projection window in milliseconds.
    pub fn lookahead_millis(&self) -> (n: u32)
        ensures
            n == self.spec_lookahead(),
    {
        self.lookahead_millis
    }

    /// Consumes token `token_id` for a crossing of `entity_id` into `target_shard`. An unknown
    /// token, one for another entity or shard, or one already used is `PreAuthInvalid`; one
    /// past its expiry is `PreAuthExpired`.
    pub fn validate_and_consume(
        &mut self,
        token_id: u64,
        entity_id: u32,
        target_shard: u32,
        current_tick: u64,
    ) -> (r: Result<PredictiveMigrationPreAuth, WorldError>)
        ensures
            (r, final(self).spec_tokens()) == spec_validate(
                old(self).spec_tokens(),
                token_id,
                entity_id,
                target_shard,
                current_tick,
            ),
            final(self).spec_next_token_id() == old(self).spec_next_token_id(),
            final(self).spec_lookahead() == old(self).spec_lookahead(),
            final(self).spec_ttl() == old(self).spec_ttl(),
    {
        let ghost s = self.tokens@;
        let ghost p = holds_token(token_id);
        let mut i: usize = 0;
        while i < 512
            invariant
                i <= 512,
                s == self.tokens@,
                s.len() == 512,
                *self == *old(self),
                p == holds_token(token_id),
                forall|j: int| 0 <= j < i ==> !p(#[trigger] s[j]),
            decreases 512 - i,
        {
            if let Some(token) = self.tokens[i] {
                if token.token_id == token_id {
                    proof {
                        lemma_first_index_is(s, p, i as int);
                    }
                    if token.entity_id != entity_id || token.target_shard != target_shard {
                        return Err(WorldError::PreAuthInvalid);
                    }
                    if token.is_consumed {
                        return Err(WorldError::PreAuthInvalid);
                    }
                    if current_tick > token.expiry_tick {
                        return Err(WorldError::PreAuthExpired);
                    }
                    let used = PredictiveMigrationPreAuth { is_consumed: true, ..token };
                    self.tokens[i] = Some(used);
                    return Ok(used);
                }
            }
            i = i + 1;
        }
        proof {
            lemma_first_index_none(s, p);
        }
        Err(WorldError::PreAuthInvalid)
    }

    /// Frees the slots of consumed or expired tokens.
    pub fn purge_expired(&mut self, current_tick: u64)
        ensures
            final(self).spec_tokens() == purged(old(self).spec_tokens(), current_tick),
            final(self).spec_next_token_id() == old(self).spec_next_token_id(),
            final(self).spec_lookahead() == old(self).spec_lookahead(),
            final(self).spec_ttl() == old(self).spec_ttl(),
    {
        let ghost s = self.tokens@;
        let mut i: usize = 0;
        while i < 512
            invariant
                i <= 512,
                s == old(self).tokens@,
                self.tokens@.len() == 512,
                self.next_token_id == old(self).next_token_id,
                self.lookahead_millis == old(self).lookahead_millis,
                self.token_ttl_ticks == old(self).token_ttl_ticks,
                forall|j: int| 0 <= j < i ==> #[trigger] self.tokens@[j] == purged(s, current_tick)[j],
                forall|j: int| i <= j < 512 ==> #[trigger] self.tokens@[j] == s[j],
            decreases 512 - i,
        {
            if let Some(token) = self.tokens[i] {
                if token.is_consumed || current_tick > token.expiry_tick {
                    self.tokens[i] = None;
                }
            }
            i = i + 1;
        }
        assert(self.tokens@ =~= purged(s, current_tick));
    }

    #[verifier::loop_isolation(false)]
    fn store_token(&mut self, token: PredictiveMigrationPreAuth, current_tick: u64)
        ensures
            final(self).spec_tokens() == old(self).spec_tokens().update(
                storage_slot(old(self).spec_tokens(), current_tick),
                Some(token),
            ),
            0 <= storage_slot(old(self).spec_tokens(), current_tick) < 512,
            final(self).spec_next_token_id() == old(self).spec_next_token_id(),
            final(self).spec_lookahead() == old(self).spec_lookahead(),
            final(self).spec_ttl() == old(self).spec_ttl(),
    {
        let ghost s = self.tokens@;
        let ghost q = free_token_slot();
        let ghost e = stale_token_slot(current_tick);
        proof {
            lemma_first_index(s, q);
            lemma_first_index(s, e);
        }
        let mut i: usize = 0;
        while i < 512
            invariant
                i <= 512,
                s == self.tokens@,
                s == old(self).tokens@,
                *self == *old(self),
                s.len() == 512,
                q == free_token_slot(),
                forall|j: int| 0 <= j < i ==> !q(#[trigger] s[j]),
            decreases 512 - i,
        {
            if self.tokens[i].is_none() {
                proof {
                    lemma_first_index_is(s, q, i as int);
                }
                self.tokens[i] = Some(token);
                return;
            }
            i = i + 1;
        }
        proof {
            lemma_first_index_none(s, q);
        }
        let mut i: usize = 0;
        while i < 512
            invariant
                i <= 512,
                s == self.tokens@,
                s == old(self).tokens@,
                *self == *old(self),
                s.len() == 512,
                first_index(s, q) == -1,
                e == stale_token_slot(current_tick),
                forall|j: int| 0 <= j < i ==> !e(#[trigger] s[j]),
            decreases 512 - i,
        {
            if let Some(existing) = self.tokens[i] {
                if existing.is_consumed || current_tick > existing.expiry_tick {
                    proof {
                        lemma_first_index_is(s, e, i as int);
                    }
                    self.tokens[i] = Some(token);
                    return;
                }
            }
            i = i + 1;
        }
        proof {
            lemma_first_index_none(s, e);
        }
        self.tokens[0] = Some(token);
    }

    /// Decides on a pre-authorization for `entity_id`, whose position projected over the
    /// lookahead window lies in sector `(projected_sector_x, projected_sector_z)`. No token is
    /// issued when the projected sector has no shard or stays on `source_shard`; a live token
    /// for the same entity and target shard is returned as is; otherwise a new token is issued
    /// with the next identifier and a lifetime of the configured TTL (saturating).
    #[verifier::loop_isolation(false)]
    pub fn pre_authenticate_projected(
        &mut self,
        entity_id: u32,
        projected_sector_x: i32,
        projected_sector_z: i32,
        source_shard: u32,
        shard_manager: &AdaptiveShardManager,
        current_tick: u64,
    ) -> (r: Option<PredictiveMigrationPreAuth>)
        ensures
            final(self).spec_lookahead() == old(self).spec_lookahead(),
            final(self).spec_ttl() == old(self).spec_ttl(),
            ({
                let k = first_index(shard_manager@.sectors, is_sector(projected_sector_x, projected_sector_z));
                let tokens = old(self).spec_tokens();
                if k < 0 || shard_manager@.sectors[k].2.shard_id == source_shard {
                    &&& r is None
                    &&& final(self).spec_tokens() == tokens
                    &&& final(self).spec_next_token_id() == old(self).spec_next_token_id()
                } else {
                    let target = shard_manager@.sectors[k].2.shard_id;
                    let live = first_index(tokens, live_token_for(entity_id, target, current_tick));
                    if live >= 0 {
                        &&& r == Some(tokens[live]->0)
                        &&& final(self).spec_tokens() == tokens
                        &&& final(self).spec_next_token_id() == old(self).spec_next_token_id()
                    } else {
                        let t = PredictiveMigrationPreAuth {
                            token_id: old(self).spec_next_token_id(),
                            entity_id,
                            source_shard,
                            target_shard: target,
                            target_sector_x: projected_sector_x,
                            target_sector_z: projected_sector_z,
                            issued_tick: current_tick,
                            expiry_tick: if current_tick + old(self).spec_ttl() > u64::MAX {
                                u64::MAX
                            } else {
                                (current_tick + old(self).spec_ttl()) as u64
                            },
                            is_consumed: false,
                        };
                        &&& r == Some(t)
                        &&& final(self).spec_tokens() == tokens.update(
                            storage_slot(tokens, current_tick),
                            Some(t),
                        )
                        &&& final(self).spec_next_token_id() == if old(self).spec_next_token_id()
                            == u64::MAX {
                            0
                        } else {
                            (old(self).spec_next_token_id() + 1) as u64
                        }
                    }
                }
            }),
    {
        let target_shard = match shard_manager.get_shard_for_sector(projected_sector_x, projected_sector_z) {
            Some(t) => t,
            None => {
                return None;
            },
        };
        if target_shard == source_shard {
            return None;
        }
        let ghost s = self.tokens@;
        let ghost p = live_token_for(entity_id, target_shard, current_tick);
        let mut i: usize = 0;
        while i < 512
            invariant
                i <= 512,
                s == self.tokens@,
                s.len() == 512,
                *self == *old(self),
                p == live_token_for(entity_id, target_shard, current_tick),
                forall|j: int| 0 <= j < i ==> !p(#[trigger] s[j]),
            decreases 512 - i,
        {
            if let Some(token) = self.tokens[i] {
                if token.entity_id == entity_id && token.target_shard == target_shard
                    && !token.is_consumed && current_tick <= token.expiry_tick {
                    proof {
                        lemma_first_index_is(s, p, i as int);
                    }
                    return Some(token);
                }
            }
            i = i + 1;
        }
        proof {
            lemma_first_index_none(s, p);
        }
        let token_id = self.next_token_id;
        self.next_token_id = self.next_token_id.wrapping_add(1);
        let new_token = PredictiveMigrationPreAuth {
            token_id,
            entity_id,
            source_shard,
            target_shard,
            target_sector_x: projected_sector_x,
            target_sector_z: projected_sector_z,
            issued_tick: current_tick,
            expiry_tick: current_tick.saturating_add(self.token_ttl_ticks),
            is_consumed: false,
        };
        self.store_token(new_token, current_tick);
        Some(new_token)
    }
}

impl Default for PredictiveSeamPredictor {
    /// A 500 ms window and a 30-tick token lifetime.
    fn default() -> (p: Self)
        ensures
            p.spec_tokens() == Seq::new(512, |i: int| None::<PredictiveMigrationPreAuth>),
            p.spec_next_token_id() == 1,
            p.spec_lookahead() == 500,
            p.spec_ttl() == 30,
    {
        PredictiveSeamPredictor::new(DEFAULT_LOOKAHEAD_MILLIS, DEFAULT_PRE_AUTH_TTL_TICKS)
    }
}

/// Tokens are single-use: once a crossing consumed a token, validating it again, for any
/// crossing and at any tick, is refused with `PreAuthInvalid` and changes nothing.
pub proof fn lemma_token_is_single_use(
    tokens: Seq<Option<PredictiveMigrationPreAuth>>,
    token_id: u64,
    entity_id: u32,
    target_shard: u32,
    tick: u64,
    entity2: u32,
    target2: u32,
    tick2: u64,
)
    requires
        spec_validate(tokens, token_id, entity_id, target_shard, tick).0 is Ok,
    ensures
        ({
            let after = spec_validate(tokens, token_id, entity_id, target_shard, tick).1;
            spec_validate(after, token_id, entity2, target2, tick2) == (
                Err::<PredictiveMigrationPreAuth, WorldError>(WorldError::PreAuthInvalid),
                after,
            )
        }),
{
    let p = holds_token(token_id);
    let k = first_index(tokens, p);
    lemma_first_index(tokens, p);
    let after = spec_validate(tokens, token_id, entity_id, target_shard, tick).1;
    assert forall|j: int| 0 <= j < k implies !p(#[trigger] after[j]) by {
        assert(after[j] == tokens[j]);
    }
    assert(p(after[k]));
    lemma_first_index_is(after, p, k);
}

/// Purging keeps exactly the usable tokens: afterwards no slot holds a stale token, and every
/// token that was usable is still in its slot.
pub proof fn lemma_purge_keeps_live_tokens(tokens: Seq<Option<PredictiveMigrationPreAuth>>, tick: u64)
    ensures
        forall|i: int| 0 <= i < tokens.len() ==> !stale_token_slot(tick)(#[trigger] purged(tokens, tick)[i]),
        forall|i: int|
            0 <= i < tokens.len() && !stale_token_slot(tick)(tokens[i]) ==> #[trigger] purged(
                tokens,
                tick,
            )[i] == tokens[i],
{
}

} // verus!
