//! Ability cast interruption reasons and per-entity cooldown tracking.
use vstd::prelude::*;

use crate::slots::{first_index, lemma_first_index_is, lemma_first_index_none};

verus! {

/// Maximum concurrent cooldown timers tracked per entity.
pub const MAX_COOLDOWNS_PER_ENTITY: usize = 16;

/// Reason explaining why an active cast was terminated prematurely.
#[derive(Debug, Clone, Copy, PartialEq, Eq, Structural)]
pub enum CastInterruptedReason {
    /// Caster moved beyond the allowed stationary threshold.
    Movement,
    /// Caster took combat damage during a breakable cast.
    Damage,
    /// Player explicitly cancelled.
    Cancelled,
    /// Target despawned or moved out of range.
    TargetLost,
}

/// Slot tracks `ability_id`.
pub open spec fn tracks(ability_id: u32) -> spec_fn(Option<(u32, u64)>) -> bool {
    |e: Option<(u32, u64)>| e matches Some(p) && p.0 == ability_id
}

/// Slot is free.
pub open spec fn free_slot() -> spec_fn(Option<(u32, u64)>) -> bool {
    |e: Option<(u32, u64)>| e is None
}

/// Slot holds a timer that has elapsed at `tick`.
pub open spec fn expired_at(tick: u64) -> spec_fn(Option<(u32, u64)>) -> bool {
    |e: Option<(u32, u64)>| e matches Some(p) && tick >= p.1
}

/// Slots after starting a cooldown of `ability_id` that ends at `ready_at`: the ability's own
/// timer is reset; otherwise the first free slot, else the first elapsed timer, else slot 0 is used.
pub open spec fn spec_trigger(s: Seq<Option<(u32, u64)>>, ability_id: u32, tick: u64, ready_at: u64) -> Seq<
    Option<(u32, u64)>,
> {
    let k = first_index(s, tracks(ability_id));
    if k >= 0 {
        s.update(k, Some((ability_id, ready_at)))
    } else {
        let f = first_index(s, free_slot());
        if f >= 0 {
            s.update(f, Some((ability_id, ready_at)))
        } else {
            let x = first_index(s, expired_at(tick));
            if x >= 0 {
                s.update(x, Some((ability_id, ready_at)))
            } else {
                s.update(0, Some((ability_id, ready_at)))
            }
        }
    }
}

/// Tick at which a tracked timer elapses.
pub open spec fn ready_of(e: Option<(u32, u64)>) -> u64 {
    match e {
        Some(p) => p.1,
        None => 0,
    }
}

/// Zero-allocation registry tracking recovery cooldown timers per ability.
#[derive(Debug, Clone, Copy, PartialEq, Eq)]
pub struct CooldownTracker {
    entries: [Option<(u32, u64)>; 16],
}

impl CooldownTracker {
    /// The timer slots `(ability_id, ready_at_tick)`.
    pub closed spec fn spec_entries(&self) -> Seq<Option<(u32, u64)>> {
        self.entries@
    }

    /// Whether `ability_id` is castable at `tick`: untracked abilities always are.
    pub open spec fn spec_is_ready(&self, ability_id: u32, tick: u64) -> bool {
        let k = first_index(self.spec_entries(), tracks(ability_id));
        k < 0 || tick >= ready_of(self.spec_entries()[k])
    }

    /// Remaining ticks before `ability_id` is castable (low 32 bits), 0 if ready or untracked.
    pub open spec fn spec_remaining_ticks(&self, ability_id: u32, tick: u64) -> u32 {
        let k = first_index(self.spec_entries(), tracks(ability_id));
        if k >= 0 && ready_of(self.spec_entries()[k]) > tick {
            (ready_of(self.spec_entries()[k]) - tick) as u32
        } else {
            0
        }
    }

    /// No two slots track the same ability.
    pub open spec fn wf(&self) -> bool {
        unique_abilities(self.spec_entries())
    }

    /// Constructs an empty cooldown tracker.
    pub fn new() -> (t: Self)
        ensures
            t.wf(),
            t.spec_entries() == Seq::new(16, |i: int| None::<(u32, u64)>),
    {
        let t = CooldownTracker { entries: [None; 16] };
        assert(t.entries@ =~= Seq::new(16, |i: int| None::<(u32, u64)>));
        t
    }

    /// Checks if an ability is ready to cast at `current_tick`.
    pub fn is_ready(&self, ability_id: u32, current_tick: u64) -> (b: bool)
        ensures
            b == self.spec_is_ready(ability_id, current_tick),
    {
        let ghost s = self.entries@;
        let ghost p = tracks(ability_id);
        let mut i: usize = 0;
        while i < 16
            invariant
                i <= 16,
                s == self.entries@,
                s.len() == 16,
                p == tracks(ability_id),
                forall|j: int| 0 <= j < i ==> !p(#[trigger] s[j]),
            decreases 16 - i,
        {
            if let Some(entry) = self.entries[i] {
                if entry.0 == ability_id {
                    proof {
                        lemma_first_index_is(s, p, i as int);
                    }
                    return current_tick >= entry.1;
                }
            }
            i = i + 1;
        }
        proof {
            lemma_first_index_none(s, p);
        }
        true
    }

    /// Starts a cooldown for `ability_id` ending at `current_tick + duration_ticks`.
    #[verifier::loop_isolation(false)]
    pub fn trigger(&mut self, ability_id: u32, current_tick: u64, duration_ticks: u32)
        requires
            current_tick + duration_ticks <= u64::MAX,
        ensures
            old(self).wf() ==> final(self).wf(),
            final(self).spec_entries() == spec_trigger(
                old(self).spec_entries(),
                ability_id,
                current_tick,
                (current_tick + duration_ticks) as u64,
            ),
    {
        let ready_at = current_tick + duration_ticks as u64;
        proof {
            lemma_trigger_keeps_unique(self.entries@, ability_id, current_tick, ready_at);
        }
        let ghost s = self.entries@;
        let ghost p = tracks(ability_id);
        let mut i: usize = 0;
        while i < 16
            invariant
                i <= 16,
                s == self.entries@,
                s.len() == 16,
                forall|j: int| 0 <= j < i ==> !p(#[trigger] s[j]),
            decreases 16 - i,
        {
            if let Some(entry) = self.entries[i] {
                if entry.0 == ability_id {
                    proof {
                        lemma_first_index_is(s, p, i as int);
                    }
                    self.entries[i] = Some((ability_id, ready_at));
                    return;
                }
            }
            i = i + 1;
        }
        proof {
            lemma_first_index_none(s, p);
        }
        let ghost q = free_slot();
        let mut i: usize = 0;
        while i < 16
            invariant
                i <= 16,
                s == self.entries@,
                s.len() == 16,
                forall|j: int| 0 <= j < i ==> !q(#[trigger] s[j]),
            decreases 16 - i,
        {
            if self.entries[i].is_none() {
                proof {
                    lemma_first_index_is(s, q, i as int);
                }
                self.entries[i] = Some((ability_id, ready_at));
                return;
            }
            i = i + 1;
        }
        proof {
            lemma_first_index_none(s, q);
        }
        let ghost e = expired_at(current_tick);
        let mut i: usize = 0;
        while i < 16
            invariant
                i <= 16,
                s == self.entries@,
                s.len() == 16,
                forall|j: int| 0 <= j < i ==> !e(#[trigger] s[j]),
            decreases 16 - i,
        {
            if let Some(entry) = self.entries[i] {
                if current_tick >= entry.1 {
                    proof {
                        lemma_first_index_is(s, e, i as int);
                    }
                    self.entries[i] = Some((ability_id, ready_at));
                    return;
                }
            }
            i = i + 1;
        }
        proof {
            lemma_first_index_none(s, e);
        }
        self.entries[0] = Some((ability_id, ready_at));
    }

    /// Returns remaining ticks until the ability is ready, or 0 if available.
    pub fn remaining_ticks(&self, ability_id: u32, current_tick: u64) -> (n: u32)
        ensures
            n == self.spec_remaining_ticks(ability_id, current_tick),
    {
        let ghost s = self.entries@;
        let ghost p = tracks(ability_id);
        let mut i: usize = 0;
        while i < 16
            invariant
                i <= 16,
                s == self.entries@,
                s.len() == 16,
                p == tracks(ability_id),
                forall|j: int| 0 <= j < i ==> !p(#[trigger] s[j]),
            decreases 16 - i,
        {
            if let Some(entry) = self.entries[i] {
                if entry.0 == ability_id {
                    proof {
                        lemma_first_index_is(s, p, i as int);
                    }
                    return if entry.1 > current_tick {
                        (entry.1 - current_tick) as u32
                    } else {
                        0
                    };
                }
            }
            i = i + 1;
        }
        proof {
            lemma_first_index_none(s, p);
        }
        0
    }
}

/// A cooldown just started is observed by later queries: the ability is not ready before the
/// cooldown ends, is ready from then on, and reports the exact remaining ticks.
pub proof fn lemma_trigger_then_query(
    t: CooldownTracker,
    after: CooldownTracker,
    ability_id: u32,
    tick: u64,
    ready_at: u64,
    q: u64,
)
    requires
        after.spec_entries() == spec_trigger(t.spec_entries(), ability_id, tick, ready_at),
        t.spec_entries().len() == 16,
    ensures
        after.spec_is_ready(ability_id, q) == (q >= ready_at),
        q < ready_at && ready_at - q <= u32::MAX ==> after.spec_remaining_ticks(ability_id, q) == ready_at - q,
{
    let s = t.spec_entries();
    let a = after.spec_entries();
    let p = tracks(ability_id);
    crate::slots::lemma_first_index(s, p);
    crate::slots::lemma_first_index(s, free_slot());
    crate::slots::lemma_first_index(s, expired_at(tick));
    // the slot written now holds the ability, and no earlier slot does
    let k = first_index(s, p);
    let w = if k >= 0 {
        k
    } else if first_index(s, free_slot()) >= 0 {
        first_index(s, free_slot())
    } else if first_index(s, expired_at(tick)) >= 0 {
        first_index(s, expired_at(tick))
    } else {
        0
    };
    assert(a == s.update(w, Some((ability_id, ready_at))));
    assert forall|j: int| 0 <= j < w implies !p(#[trigger] a[j]) by {
        assert(a[j] == s[j]);
        if k >= 0 {
            assert(j < k);
        }
    }
    lemma_first_index_is(a, p, w);
}

/// No two timer slots track the same ability.
pub open spec fn unique_abilities(s: Seq<Option<(u32, u64)>>) -> bool {
    forall|i: int, j: int|
        0 <= i < j < s.len() && (#[trigger] s[i]) is Some && (#[trigger] s[j]) is Some ==> (s[i]->0).0
            != (s[j]->0).0
}

proof fn lemma_trigger_keeps_unique(s: Seq<Option<(u32, u64)>>, ability_id: u32, tick: u64, ready_at: u64)
    requires
        s.len() > 0,
    ensures
        unique_abilities(s) ==> unique_abilities(spec_trigger(s, ability_id, tick, ready_at)),
{
    crate::slots::lemma_first_index(s, tracks(ability_id));
    crate::slots::lemma_first_index(s, free_slot());
    crate::slots::lemma_first_index(s, expired_at(tick));
    let a = spec_trigger(s, ability_id, tick, ready_at);
    if unique_abilities(s) {
        let k = first_index(s, tracks(ability_id));
        let w = if k >= 0 {
            k
        } else if first_index(s, free_slot()) >= 0 {
            first_index(s, free_slot())
        } else if first_index(s, expired_at(tick)) >= 0 {
            first_index(s, expired_at(tick))
        } else {
            0
        };
        assert(a == s.update(w, Some((ability_id, ready_at))));
        assert forall|i: int, j: int|
            0 <= i < j < a.len() && (#[trigger] a[i]) is Some && (#[trigger] a[j]) is Some implies (a[i]->0).0
                != (a[j]->0).0 by {
            if i == w {
                assert(a[j] == s[j]);
                if k < 0 {
                    assert(!tracks(ability_id)(s[j]));
                } else {
                    assert((s[k]->0).0 == ability_id);
                }
            } else if j == w {
                assert(a[i] == s[i]);
                if k < 0 {
                    assert(!tracks(ability_id)(s[i]));
                } else {
                    assert((s[k]->0).0 == ability_id);
                }
            } else {
                assert(a[i] == s[i] && a[j] == s[j]);
            }
        }
    }
}

/// Triggering one ability leaves every other ability as it was, from the trigger tick on,
/// unless a full table of unexpired timers forces the oldest slot out: the other ability's
/// readiness and remaining ticks are unchanged.
pub proof fn lemma_trigger_keeps_other_abilities(
    t: CooldownTracker,
    after: CooldownTracker,
    ability_id: u32,
    tick: u64,
    ready_at: u64,
    other: u32,
    q: u64,
)
    requires
        after.spec_entries() == spec_trigger(t.spec_entries(), ability_id, tick, ready_at),
        t.spec_entries().len() == 16,
        t.wf(),
        other != ability_id,
        q >= tick,
        first_index(t.spec_entries(), tracks(ability_id)) >= 0 || first_index(
            t.spec_entries(),
            free_slot(),
        ) >= 0 || first_index(t.spec_entries(), expired_at(tick)) >= 0,
    ensures
        after.spec_is_ready(other, q) == t.spec_is_ready(other, q),
        after.spec_remaining_ticks(other, q) == t.spec_remaining_ticks(other, q),
{
    let s = t.spec_entries();
    let a = after.spec_entries();
    let pb = tracks(other);
    crate::slots::lemma_first_index(s, tracks(ability_id));
    crate::slots::lemma_first_index(s, free_slot());
    crate::slots::lemma_first_index(s, expired_at(tick));
    crate::slots::lemma_first_index(s, pb);
    let k = first_index(s, tracks(ability_id));
    let w = if k >= 0 {
        k
    } else if first_index(s, free_slot()) >= 0 {
        first_index(s, free_slot())
    } else {
        first_index(s, expired_at(tick))
    };
    assert(a == s.update(w, Some((ability_id, ready_at))));
    let kb = first_index(s, pb);
    if kb >= 0 && kb == w {
        assert forall|j: int| 0 <= j < a.len() implies !pb(#[trigger] a[j]) by {
            if j != w && pb(s[j]) {
                if j < w {
                    assert(!pb(s[j]));
                } else {
                    assert((s[w]->0).0 != (s[j]->0).0);
                }
            }
        }
        crate::slots::lemma_first_index_none(a, pb);
    } else if kb >= 0 {
        assert forall|j: int| 0 <= j < kb implies !pb(#[trigger] a[j]) by {
            if j != w {
                assert(a[j] == s[j]);
            }
        }
        assert(a[kb] == s[kb]);
        lemma_first_index_is(a, pb, kb);
    } else {
        assert forall|j: int| 0 <= j < a.len() implies !pb(#[trigger] a[j]) by {
            if j != w {
                assert(a[j] == s[j]);
            }
        }
        crate::slots::lemma_first_index_none(a, pb);
    }
}

} // verus!
