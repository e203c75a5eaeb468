//! Authoritative threat and aggro tables for NPCs: taunt locks, decay and target hysteresis.
use vstd::prelude::*;

use crate::slots::{
    count_some, first_index, lemma_count_some_bound, lemma_count_some_update, lemma_first_index,
    lemma_first_index_is, lemma_first_index_none,
};

verus! {

/// Number of combatants a threat table can track.
pub const THREAT_TABLE_SLOTS: usize = 16;

/// `a + b`, clamped at `u32::MAX`.
pub open spec fn sat_add_u32(a: u32, b: u32) -> u32 {
    if a + b > u32::MAX { u32::MAX } else { (a + b) as u32 }
}

/// An entry in an NPC's threat table representing an active combatant.
#[derive(Debug, Clone, Copy, PartialEq, Eq, Structural)]
pub struct ThreatEntry {
    /// Entity ID of the attacker.
    pub entity_id: u64,
    /// Accumulated threat score.
    pub threat_points: u32,
    /// Cumulative damage dealt to this NPC.
    pub damage_dealt: u32,
    /// Cumulative healing generated while in combat with this NPC.
    pub healing_done: u32,
    /// Tick when this attacker last generated threat.
    pub last_threat_tick: u64,
}

impl ThreatEntry {
    /// Creates a new threat entry for an attacker with no damage or healing recorded.
    pub fn new(entity_id: u64, initial_threat: u32, current_tick: u64) -> (e: Self)
        ensures
            e == (ThreatEntry {
                entity_id,
                threat_points: initial_threat,
                damage_dealt: 0,
                healing_done: 0,
                last_threat_tick: current_tick,
            }),
    {
        ThreatEntry {
            entity_id,
            threat_points: initial_threat,
            damage_dealt: 0,
            healing_done: 0,
            last_threat_tick: current_tick,
        }
    }
}

/// Slot holds the attacker `id`.
pub open spec fn holds_id(id: u64) -> spec_fn(Option<ThreatEntry>) -> bool {
    |e: Option<ThreatEntry>| e matches Some(x) && x.entity_id == id
}

/// Slot is empty.
pub open spec fn is_vacant() -> spec_fn(Option<ThreatEntry>) -> bool {
    |e: Option<ThreatEntry>| e is None
}

/// Threat of an occupied slot.
pub open spec fn threat_of(e: Option<ThreatEntry>) -> u32 {
    match e {
        Some(x) => x.threat_points,
        None => 0,
    }
}

/// First occupied slot of least threat (-1 when all slots are empty).
pub open spec fn min_slot(s: Seq<Option<ThreatEntry>>) -> int
    decreases s.len(),
{
    if s.len() == 0 {
        -1
    } else {
        let m = min_slot(s.drop_last());
        if s.last() is Some && (m < 0 || threat_of(s.last()) < threat_of(s[m])) {
            s.len() - 1
        } else {
            m
        }
    }
}

/// First occupied slot of greatest threat (-1 when all slots are empty).
pub open spec fn max_slot(s: Seq<Option<ThreatEntry>>) -> int
    decreases s.len(),
{
    if s.len() == 0 {
        -1
    } else {
        let m = max_slot(s.drop_last());
        if s.last() is Some && (m < 0 || threat_of(s.last()) > threat_of(s[m])) {
            s.len() - 1
        } else {
            m
        }
    }
}

/// A fresh entry for an attacker whose first threat is `amount`, booked as damage or healing.
pub open spec fn fresh_entry(id: u64, amount: u32, is_damage: bool, tick: u64) -> ThreatEntry {
    ThreatEntry {
        entity_id: id,
        threat_points: amount,
        damage_dealt: if is_damage { amount } else { 0 },
        healing_done: if is_damage { 0 } else { amount },
        last_threat_tick: tick,
    }
}

/// Slots after adding `amount` threat from `id`: the attacker's own slot accumulates
/// (saturating); a new attacker takes the first empty slot; in a full table it replaces the
/// first least-threat slot only when its threat is strictly higher.
pub open spec fn spec_add_threat(
    s: Seq<Option<ThreatEntry>>,
    id: u64,
    amount: u32,
    is_damage: bool,
    tick: u64,
) -> Seq<Option<ThreatEntry>> {
    let k = first_index(s, holds_id(id));
    if k >= 0 {
        let e = s[k]->0;
        s.update(
            k,
            Some(
                ThreatEntry {
                    threat_points: sat_add_u32(e.threat_points, amount),
                    damage_dealt: if is_damage {
                        sat_add_u32(e.damage_dealt, amount)
                    } else {
                        e.damage_dealt
                    },
                    healing_done: if is_damage {
                        e.healing_done
                    } else {
                        sat_add_u32(e.healing_done, amount)
                    },
                    last_threat_tick: tick,
                    ..e
                },
            ),
        )
    } else {
        let f = first_index(s, is_vacant());
        if f >= 0 {
            s.update(f, Some(fresh_entry(id, amount, is_damage, tick)))
        } else {
            let m = min_slot(s);
            if m >= 0 && amount > threat_of(s[m]) {
                s.update(m, Some(fresh_entry(id, amount, is_damage, tick)))
            } else {
                s
            }
        }
    }
}

/// Occupied slots carry pairwise distinct attackers.
pub open spec fn ids_distinct(s: Seq<Option<ThreatEntry>>) -> bool {
    forall|i: int, j: int|
        0 <= i < s.len() && 0 <= j < s.len() && i != j && s[i] is Some && s[j] is Some
            ==> #[trigger] s[i]->0.entity_id != #[trigger] s[j]->0.entity_id
}

/// Fixed-capacity threat table tracking up to 16 concurrent combatants.
#[derive(Debug, Clone)]
pub struct ThreatTable {
    entries: [Option<ThreatEntry>; 16],
    count: usize,
    taunt_target: Option<u64>,
    taunt_expire_tick: u64,
}

proof fn lemma_min_slot(s: Seq<Option<ThreatEntry>>)
    ensures
        -1 <= min_slot(s) < s.len(),
        min_slot(s) >= 0 ==> s[min_slot(s)] is Some,
        min_slot(s) >= 0 ==> forall|j: int|
            0 <= j < s.len() && (#[trigger] s[j]) is Some ==> threat_of(s[min_slot(s)]) <= threat_of(
                s[j],
            ),
        min_slot(s) < 0 ==> forall|j: int| 0 <= j < s.len() ==> (#[trigger] s[j]) is None,
    decreases s.len(),
{
    if s.len() > 0 {
        lemma_min_slot(s.drop_last());
        assert forall|j: int| 0 <= j < s.len() - 1 implies s.drop_last()[j] == #[trigger] s[j] by {}
    }
}

proof fn lemma_max_slot(s: Seq<Option<ThreatEntry>>)
    ensures
        -1 <= max_slot(s) < s.len(),
        max_slot(s) >= 0 ==> s[max_slot(s)] is Some,
        max_slot(s) >= 0 ==> forall|j: int|
            0 <= j < s.len() && (#[trigger] s[j]) is Some ==> threat_of(s[j]) <= threat_of(
                s[max_slot(s)],
            ),
        max_slot(s) < 0 ==> forall|j: int| 0 <= j < s.len() ==> (#[trigger] s[j]) is None,
    decreases s.len(),
{
    if s.len() > 0 {
        lemma_max_slot(s.drop_last());
        assert forall|j: int| 0 <= j < s.len() - 1 implies s.drop_last()[j] == #[trigger] s[j] by {}
    }
}

impl ThreatTable {
    /// Slot contents.
    pub closed spec fn spec_entries(&self) -> Seq<Option<ThreatEntry>> {
        self.entries@
    }

    /// Tracked combatant count.
    pub closed spec fn spec_count(&self) -> nat {
        self.count as nat
    }

    /// Active taunt target, if any.
    pub closed spec fn spec_taunt_target(&self) -> Option<u64> {
        self.taunt_target
    }

    /// Tick at which the taunt lock ends.
    pub closed spec fn spec_taunt_expire_tick(&self) -> u64 {
        self.taunt_expire_tick
    }

    /// The count matches the occupied slots and no attacker occupies two slots.
    pub open spec fn wf(&self) -> bool {
        &&& self.spec_entries().len() == THREAT_TABLE_SLOTS
        &&& self.spec_count() == count_some(self.spec_entries())
        &&& ids_distinct(self.spec_entries())
    }

    /// Highest-threat combatant as `(entity_id, threat)`, the earliest slot winning ties.
    pub open spec fn spec_top_threat(&self) -> Option<(u64, u32)> {
        let m = max_slot(self.spec_entries());
        if m >= 0 {
            Some((self.spec_entries()[m]->0.entity_id, self.spec_entries()[m]->0.threat_points))
        } else {
            None
        }
    }

    /// Target choice: an active taunt wins; otherwise the top-threat combatant replaces the
    /// current target only if it reaches 110% (melee) or 130% (ranged) of the current target's threat.
    pub open spec fn spec_select_target(
        &self,
        current_target: Option<u64>,
        is_melee: bool,
        current_tick: u64,
    ) -> Option<u64> {
        if self.spec_taunt_target() is Some && current_tick < self.spec_taunt_expire_tick() {
            self.spec_taunt_target()
        } else {
            match self.spec_top_threat() {
                None => None,
                Some((top_id, top_threat)) => match current_target {
                    None => Some(top_id),
                    Some(curr_id) => if curr_id == top_id {
                        Some(curr_id)
                    } else {
                        let k = first_index(self.spec_entries(), holds_id(curr_id));
                        if k < 0 {
                            Some(top_id)
                        } else {
                            let ct = self.spec_entries()[k]->0.threat_points;
                            let threshold = if is_melee {
                                sat_add_u32(ct, ct / 10)
                            } else {
                                sat_add_u32(ct, (if ct * 3 > u32::MAX { u32::MAX } else { (ct * 3) as u32 }) / 10)
                            };
                            if top_threat >= threshold {
                                Some(top_id)
                            } else {
                                Some(curr_id)
                            }
                        }
                    },
                },
            }
        }
    }

    /// Creates an empty threat table.
    pub fn new() -> (t: Self)
        ensures
            t.wf(),
            t.spec_entries() == Seq::new(16, |i: int| None::<ThreatEntry>),
            t.spec_count() == 0,
            t.spec_taunt_target() is None,
            t.spec_taunt_expire_tick() == 0,
    {
        let t = ThreatTable { entries: [None; 16], count: 0, taunt_target: None, taunt_expire_tick: 0 };
        assert(t.entries@ =~= Seq::new(16, |i: int| None::<ThreatEntry>));
        proof {
            lemma_count_some_bound(t.entries@);
        }
        t
    }

    /// Returns the number of tracked combatants.
    pub fn len(&self) -> (n: usize)
        ensures
            n == self.spec_count(),
    {
        self.count
    }

    /// Checks if the threat table is empty.
    pub fn is_empty(&self) -> (b: bool)
        ensures
            b == (self.spec_count() == 0),
    {
        self.count == 0
    }

    /// Adds threat points for an attacker (see `spec_add_threat`).
    #[verifier::loop_isolation(false)]
    pub fn add_threat(&mut self, entity_id: u64, threat_amount: u32, is_damage: bool, current_tick: u64)
        requires
            old(self).wf(),
        ensures
            final(self).wf(),
            final(self).spec_entries() == spec_add_threat(
                old(self).spec_entries(),
                entity_id,
                threat_amount,
                is_damage,
                current_tick,
            ),
            final(self).spec_taunt_target() == old(self).spec_taunt_target(),
            final(self).spec_taunt_expire_tick() == old(self).spec_taunt_expire_tick(),
    {
        let ghost s = self.entries@;
        let ghost p = holds_id(entity_id);
        let mut i: usize = 0;
        while i < 16
            invariant
                i <= 16,
                self.entries@ == s,
                s.len() == 16,
                forall|j: int| 0 <= j < i ==> !p(#[trigger] s[j]),
                self.count == old(self).count,
                self.taunt_target == old(self).taunt_target,
                self.taunt_expire_tick == old(self).taunt_expire_tick,
            decreases 16 - i,
        {
            if let Some(e) = self.entries[i] {
                if e.entity_id == entity_id {
                    proof {
                        lemma_first_index_is(s, p, i as int);
                    }
                    let updated = ThreatEntry {
                        threat_points: e.threat_points.saturating_add(threat_amount),
                        damage_dealt: if is_damage {
                            e.damage_dealt.saturating_add(threat_amount)
                        } else {
                            e.damage_dealt
                        },
                        healing_done: if is_damage {
                            e.healing_done
                        } else {
                            e.healing_done.saturating_add(threat_amount)
                        },
                        last_threat_tick: current_tick,
                        ..e
                    };
                    self.entries[i] = Some(updated);
                    proof {
                        assert(self.entries@ =~= s.update(i as int, Some(updated)));
                        lemma_count_some_update(s, i as int, Some(updated));
                        let t = self.entries@;
                        assert forall|a: int, b: int|
                            0 <= a < t.len() && 0 <= b < t.len() && a != b && t[a] is Some
                                && t[b] is Some implies #[trigger] t[a]->0.entity_id
                            != #[trigger] t[b]->0.entity_id by {
                            if a != i && b != i {
                                assert(s[a] == t[a] && s[b] == t[b]);
                            }
                        }
                    }
                    return;
                }
            }
            i = i + 1;
        }
        proof {
            lemma_first_index_none(s, p);
        }
        let fresh = ThreatEntry {
            entity_id,
            threat_points: threat_amount,
            damage_dealt: if is_damage { threat_amount } else { 0 },
            healing_done: if is_damage { 0 } else { threat_amount },
            last_threat_tick: current_tick,
        };
        let ghost q = is_vacant();
        let mut i: usize = 0;
        while i < 16
            invariant
                i <= 16,
                self.entries@ == s,
                s.len() == 16,
                self.count == count_some(s),
                self.taunt_target == old(self).taunt_target,
                self.taunt_expire_tick == old(self).taunt_expire_tick,
                forall|j: int| 0 <= j < 16 ==> !p(#[trigger] s[j]),
                forall|j: int| 0 <= j < i ==> !q(#[trigger] s[j]),
                ids_distinct(s),
            decreases 16 - i,
        {
            if self.entries[i].is_none() {
                proof {
                    lemma_first_index_is(s, q, i as int);
                    lemma_count_some_update(s, i as int, Some(fresh));
                    lemma_count_some_bound(s);
                    if count_some(s) == 16 {
                        assert(s[i as int] is Some);
                    }
                }
                self.entries[i] = Some(fresh);
                self.count = self.count + 1;
                proof {
                    assert(self.entries@ =~= s.update(i as int, Some(fresh)));
                    let t = self.entries@;
                    assert forall|a: int, b: int|
                        0 <= a < t.len() && 0 <= b < t.len() && a != b && t[a] is Some && t[b] is Some
                            implies #[trigger] t[a]->0.entity_id != #[trigger] t[b]->0.entity_id by {
                        if a == i {
                            assert(!p(s[b]));
                        } else if b == i {
                            assert(!p(s[a]));
                        }
                    }
                }
                return;
            }
            i = i + 1;
        }
        proof {
            lemma_first_index_none(s, q);
        }
        // Full table: replace the first least-threat slot if the newcomer's threat is higher.
        let mut lowest_idx: usize = 16;
        let mut lowest_threat: u32 = 0;
        let mut i: usize = 0;
        while i < 16
            invariant
                i <= 16,
                self.entries@ == s,
                s.len() == 16,
                forall|j: int| 0 <= j < 16 ==> (#[trigger] s[j]) is Some,
                self.count == count_some(s),
                self.taunt_target == old(self).taunt_target,
                self.taunt_expire_tick == old(self).taunt_expire_tick,
                lowest_idx == 16 <==> i == 0,
                i > 0 ==> lowest_idx < 16 && lowest_idx as int == min_slot(s.take(i as int))
                    && lowest_threat == threat_of(s[lowest_idx as int]),
            decreases 16 - i,
        {
            assert(s.take(i + 1).drop_last() =~= s.take(i as int));
            assert(s.take(i + 1).last() == s[i as int]);
            proof {
                lemma_min_slot(s.take(i as int));
            }
            if i > 0 {
                assert(s.take(i + 1)[lowest_idx as int] == s[lowest_idx as int]);
            }
            if let Some(e) = self.entries[i] {
                if lowest_idx == 16 || e.threat_points < lowest_threat {
                    lowest_idx = i;
                    lowest_threat = e.threat_points;
                    assert(min_slot(s.take(i + 1)) == i);
                } else {
                    assert(min_slot(s.take(i + 1)) == lowest_idx);
                }
            }
            i = i + 1;
        }
        assert(s.take(16) =~= s);
        if threat_amount > lowest_threat {
            let ghost old_e = s[lowest_idx as int];
            self.entries[lowest_idx] = Some(fresh);
            proof {
                assert(self.entries@ =~= s.update(lowest_idx as int, Some(fresh)));
                lemma_count_some_update(s, lowest_idx as int, Some(fresh));
                let t = self.entries@;
                assert forall|a: int, b: int|
                    0 <= a < t.len() && 0 <= b < t.len() && a != b && t[a] is Some && t[b] is Some
                        implies #[trigger] t[a]->0.entity_id != #[trigger] t[b]->0.entity_id by {
                    if a == lowest_idx {
                        assert(!p(s[b]));
                    } else if b == lowest_idx {
                        assert(!p(s[a]));
                    }
                }
            }
        }
    }

    /// Forces the NPC to target `entity_id` until `current_tick + duration_ticks` (saturating);
    /// an unknown taunter is first added with 1 point of healing threat.
    #[verifier::loop_isolation(false)]
    pub fn apply_taunt(&mut self, entity_id: u64, duration_ticks: u64, current_tick: u64)
        requires
            old(self).wf(),
        ensures
            final(self).wf(),
            final(self).spec_entries() == (if first_index(old(self).spec_entries(), holds_id(entity_id)) >= 0 {
                old(self).spec_entries()
            } else {
                spec_add_threat(old(self).spec_entries(), entity_id, 1, false, current_tick)
            }),
            final(self).spec_taunt_target() == Some(entity_id),
            final(self).spec_taunt_expire_tick() == crate::partition::sat_add_u64(current_tick, duration_ticks),
    {
        let ghost s = self.entries@;
        let ghost p = holds_id(entity_id);
        let mut found = false;
        let mut i: usize = 0;
        while i < 16
            invariant
                i <= 16,
                self.entries@ == s,
                s.len() == 16,
                !found ==> forall|j: int| 0 <= j < i ==> !p(#[trigger] s[j]),
                found ==> exists|j: int| 0 <= j < 16 && p(#[trigger] s[j]),
            decreases 16 - i,
        {
            if let Some(e) = self.entries[i] {
                if e.entity_id == entity_id {
                    found = true;
                    assert(p(s[i as int]));
                }
            }
            i = i + 1;
        }
        proof {
            lemma_first_index(s, p);
            if !found {
                lemma_first_index_none(s, p);
            }
        }
        if !found {
            self.add_threat(entity_id, 1, false, current_tick);
        }
        self.taunt_target = Some(entity_id);
        self.taunt_expire_tick = current_tick.saturating_add(duration_ticks);
    }

    /// Returns the entity ID and threat points of the highest-threat combatant.
    #[verifier::loop_isolation(false)]
    pub fn get_top_threat(&self) -> (top: Option<(u64, u32)>)
        requires
            self.wf(),
        ensures
            top == self.spec_top_threat(),
    {
        let ghost s = self.entries@;
        let mut top: Option<(u64, u32)> = None;
        let mut top_idx: usize = 0;
        let mut i: usize = 0;
        while i < 16
            invariant
                i <= 16,
                s == self.entries@,
                s.len() == 16,
                top is None ==> max_slot(s.take(i as int)) == -1,
                top is Some ==> top_idx < i && max_slot(s.take(i as int)) == top_idx as int && top
                    == Some((s[top_idx as int]->0.entity_id, s[top_idx as int]->0.threat_points)),
            decreases 16 - i,
        {
            assert(s.take(i + 1).drop_last() =~= s.take(i as int));
            assert(s.take(i + 1).last() == s[i as int]);
            proof {
                lemma_max_slot(s.take(i as int));
            }
            if top.is_some() {
                assert(s.take(i + 1)[top_idx as int] == s[top_idx as int]);
            }
            if let Some(e) = self.entries[i] {
                match top {
                    Some((_, max_threat)) => {
                        if e.threat_points > max_threat {
                            top = Some((e.entity_id, e.threat_points));
                            top_idx = i;
                        }
                    },
                    None => {
                        top = Some((e.entity_id, e.threat_points));
                        top_idx = i;
                    },
                }
            }
            i = i + 1;
        }
        assert(s.take(16) =~= s);
        top
    }

    /// Selects the primary attack target with taunt precedence and switching hysteresis.
    #[verifier::loop_isolation(false)]
    pub fn select_target(&self, current_target: Option<u64>, is_melee: bool, current_tick: u64) -> (t:
        Option<u64>)
        requires
            self.wf(),
        ensures
            t == self.spec_select_target(current_target, is_melee, current_tick),
    {
        if let Some(taunt_id) = self.taunt_target {
            if current_tick < self.taunt_expire_tick {
                return Some(taunt_id);
            }
        }
        let top = self.get_top_threat();
        let (top_id, top_threat) = match top {
            Some(x) => x,
            None => {
                return None;
            },
        };
        let curr_id = match current_target {
            Some(id) => id,
            None => {
                return Some(top_id);
            },
        };
        if curr_id == top_id {
            return Some(curr_id);
        }
        let ghost s = self.entries@;
        let ghost p = holds_id(curr_id);
        let mut i: usize = 0;
        while i < 16
            invariant
                i <= 16,
                s == self.entries@,
                s.len() == 16,
                forall|j: int| 0 <= j < i ==> !p(#[trigger] s[j]),
            decreases 16 - i,
        {
            if let Some(e) = self.entries[i] {
                if e.entity_id == curr_id {
                    proof {
                        lemma_first_index_is(s, p, i as int);
                    }
                    let ct = e.threat_points;
                    let threshold = if is_melee {
                        ct.saturating_add(ct / 10)
                    } else {
                        let tripled: u32 = if ct > u32::MAX / 3 { u32::MAX } else { ct * 3 };
                        ct.saturating_add(tripled / 10)
                    };
                    if top_threat >= threshold {
                        return Some(top_id);
                    } else {
                        return Some(curr_id);
                    }
                }
            }
            i = i + 1;
        }
        proof {
            lemma_first_index_none(s, p);
        }
        Some(top_id)
    }

    /// Removes an entity from the table and clears a taunt it held.
    #[verifier::loop_isolation(false)]
    pub fn remove_entity(&mut self, entity_id: u64)
        requires
            old(self).wf(),
        ensures
            final(self).wf(),
            ({
                let k = first_index(old(self).spec_entries(), holds_id(entity_id));
                final(self).spec_entries() == if k >= 0 {
                    old(self).spec_entries().update(k, None)
                } else {
                    old(self).spec_entries()
                }
            }),
            forall|j: int|
                0 <= j < 16 ==> !holds_id(entity_id)(#[trigger] final(self).spec_entries()[j]),
            final(self).spec_taunt_target() == (if old(self).spec_taunt_target() == Some(entity_id) {
                None
            } else {
                old(self).spec_taunt_target()
            }),
            final(self).spec_taunt_expire_tick() == old(self).spec_taunt_expire_tick(),
    {
        let ghost s = self.entries@;
        let ghost p = holds_id(entity_id);
        let mut i: usize = 0;
        while i < 16
            invariant
                i <= 16,
                s == old(self).entries@,
                s.len() == 16,
                old(self).wf(),
                forall|j: int| 0 <= j < i ==> !p(#[trigger] s[j]),
                self.entries@ == s,
                self.count == old(self).count,
                self.taunt_target == old(self).taunt_target,
                self.taunt_expire_tick == old(self).taunt_expire_tick,
            decreases 16 - i,
        {
            if let Some(e) = self.entries[i] {
                if e.entity_id == entity_id {
                    proof {
                        lemma_first_index_is(s, p, i as int);
                        lemma_count_some_update(s, i as int, None);
                    }
                    self.entries[i] = None;
                    self.count = self.count - 1;
                    proof {
                        assert(self.entries@ =~= s.update(i as int, None));
                        let t = self.entries@;
                        assert forall|j: int| 0 <= j < 16 implies !p(#[trigger] t[j]) by {
                            if j != i && p(t[j]) {
                                assert(s[j] == t[j]);
                            }
                        }
                        assert forall|a: int, b: int|
                            0 <= a < t.len() && 0 <= b < t.len() && a != b && t[a] is Some
                                && t[b] is Some implies #[trigger] t[a]->0.entity_id
                            != #[trigger] t[b]->0.entity_id by {
                            assert(s[a] == t[a] && s[b] == t[b]);
                        }
                    }
                    break;
                }
            }
            i = i + 1;
        }
        proof {
            if i == 16 {
                lemma_first_index_none(s, p);
            }
        }
        if self.taunt_target == Some(entity_id) {
            self.taunt_target = None;
        }
    }

    /// Scales every combatant's threat to `(100 - min(decay_percent, 100))%`, rounding down.
    #[verifier::loop_isolation(false)]
    pub fn decay_threat(&mut self, decay_percent: u32)
        requires
            old(self).wf(),
        ensures
            final(self).wf(),
            final(self).spec_entries().len() == 16,
            forall|j: int|
                0 <= j < 16 ==> #[trigger] final(self).spec_entries()[j] == match old(
                    self,
                ).spec_entries()[j] {
                    Some(e) => Some(
                        ThreatEntry {
                            threat_points: (e.threat_points as nat * (100 - (if decay_percent > 100 {
                                100
                            } else {
                                decay_percent
                            })) as nat / 100) as u32,
                            ..e
                        },
                    ),
                    None => None,
                },
            final(self).spec_count() == old(self).spec_count(),
            final(self).spec_taunt_target() == old(self).spec_taunt_target(),
            final(self).spec_taunt_expire_tick() == old(self).spec_taunt_expire_tick(),
    {
        let pct: u32 = if decay_percent > 100 { 100 } else { decay_percent };
        let factor: u32 = 100 - pct;
        let ghost s = self.entries@;
        let mut i: usize = 0;
        while i < 16
            invariant
                i <= 16,
                s == old(self).entries@,
                old(self).wf(),
                factor == 100 - pct,
                pct == (if decay_percent > 100 { 100 } else { decay_percent }),
                self.entries@.len() == 16,
                self.count == old(self).count,
                self.taunt_target == old(self).taunt_target,
                self.taunt_expire_tick == old(self).taunt_expire_tick,
                forall|j: int| i <= j < 16 ==> #[trigger] self.entries@[j] == s[j],
                forall|j: int|
                    0 <= j < i ==> #[trigger] self.entries@[j] == match s[j] {
                        Some(e) => Some(
                            ThreatEntry {
                                threat_points: (e.threat_points as nat * factor as nat / 100) as u32,
                                ..e
                            },
                        ),
                        None => None,
                    },
            decreases 16 - i,
        {
            if let Some(e) = self.entries[i] {
                assert(e.threat_points as u64 * factor as u64 <= 0xFFFF_FFFFu64 * 100) by (nonlinear_arith)
                    requires factor <= 100;
                let scaled = (e.threat_points as u64 * factor as u64 / 100) as u32;
                self.entries[i] = Some(ThreatEntry { threat_points: scaled, ..e });
            }
            i = i + 1;
        }
        proof {
            let t = self.entries@;
            assert forall|j: int| 0 <= j < 16 implies (#[trigger] t[j] is Some) == s[j] is Some by {}
            lemma_count_some_same_shape(s, t);
            assert forall|a: int, b: int|
                0 <= a < t.len() && 0 <= b < t.len() && a != b && t[a] is Some && t[b] is Some
                    implies #[trigger] t[a]->0.entity_id != #[trigger] t[b]->0.entity_id by {
                assert(t[a]->0.entity_id == s[a]->0.entity_id);
                assert(t[b]->0.entity_id == s[b]->0.entity_id);
            }
        }
    }

    /// Purges combatants idle for more than `timeout_ticks` (saturating elapsed time).
    #[verifier::loop_isolation(false)]
    pub fn decay_stale_threat(&mut self, timeout_ticks: u64, current_tick: u64)
        requires
            old(self).wf(),
        ensures
            final(self).wf(),
            forall|j: int|
                0 <= j < 16 ==> #[trigger] final(self).spec_entries()[j] == match old(
                    self,
                ).spec_entries()[j] {
                    Some(e) => if crate::partition::sat_sub_u64(current_tick, e.last_threat_tick)
                        > timeout_ticks {
                        None
                    } else {
                        Some(e)
                    },
                    None => None,
                },
            final(self).spec_taunt_target() == old(self).spec_taunt_target(),
            final(self).spec_taunt_expire_tick() == old(self).spec_taunt_expire_tick(),
    {
        let ghost s = self.entries@;
        let mut i: usize = 0;
        while i < 16
            invariant
                i <= 16,
                s == old(self).entries@,
                old(self).wf(),
                self.entries@.len() == 16,
                self.count == count_some(self.entries@),
                self.taunt_target == old(self).taunt_target,
                self.taunt_expire_tick == old(self).taunt_expire_tick,
                forall|j: int| i <= j < 16 ==> #[trigger] self.entries@[j] == s[j],
                forall|j: int|
                    0 <= j < i ==> #[trigger] self.entries@[j] == match s[j] {
                        Some(e) => if crate::partition::sat_sub_u64(current_tick, e.last_threat_tick)
                            > timeout_ticks {
                            None
                        } else {
                            Some(e)
                        },
                        None => None,
                    },
            decreases 16 - i,
        {
            if let Some(e) = self.entries[i] {
                if current_tick.saturating_sub(e.last_threat_tick) > timeout_ticks {
                    proof {
                        lemma_count_some_update(self.entries@, i as int, None);
                    }
                    self.entries[i] = None;
                    self.count = self.count - 1;
                }
            }
            i = i + 1;
        }
        proof {
            let t = self.entries@;
            assert forall|a: int, b: int|
                0 <= a < t.len() && 0 <= b < t.len() && a != b && t[a] is Some && t[b] is Some
                    implies #[trigger] t[a]->0.entity_id != #[trigger] t[b]->0.entity_id by {
                assert(t[a] == s[a] && t[b] == s[b]);
            }
        }
    }

    /// Clears all entries and the taunt lock.
    pub fn clear(&mut self)
        ensures
            final(self).wf(),
            final(self).spec_entries() == Seq::new(16, |i: int| None::<ThreatEntry>),
            final(self).spec_count() == 0,
            final(self).spec_taunt_target() is None,
            final(self).spec_taunt_expire_tick() == 0,
    {
        self.entries = [None; 16];
        self.count = 0;
        self.taunt_target = None;
        self.taunt_expire_tick = 0;
        assert(self.entries@ =~= Seq::new(16, |i: int| None::<ThreatEntry>));
        proof {
            lemma_count_some_bound(self.entries@);
        }
    }
}

/// Two slot tables occupied at the same positions have the same count.
pub proof fn lemma_count_some_same_shape<T, U>(s: Seq<Option<T>>, t: Seq<Option<U>>)
    requires
        s.len() == t.len(),
        forall|j: int| 0 <= j < s.len() ==> (#[trigger] t[j] is Some) == s[j] is Some,
    ensures
        count_some(s) == count_some(t),
    decreases s.len(),
{
    if s.len() > 0 {
        assert forall|j: int| 0 <= j < s.len() - 1 implies (#[trigger] t.drop_last()[j] is Some)
            == s.drop_last()[j] is Some by {
            assert(t.drop_last()[j] == t[j] && s.drop_last()[j] == s[j]);
        }
        lemma_count_some_same_shape(s.drop_last(), t.drop_last());
    }
}

/// While a taunt is active the taunter is always selected, whatever the threat standings.
pub proof fn lemma_taunt_overrides_threat(
    t: ThreatTable,
    current: Option<u64>,
    is_melee: bool,
    tick: u64,
)
    requires
        t.spec_taunt_target() is Some,
        tick < t.spec_taunt_expire_tick(),
    ensures
        t.spec_select_target(current, is_melee, tick) == t.spec_taunt_target(),
{
}

/// Without a taunt, a combatant that is not the top threat is never selected, and the current
/// target is kept while the top threat stays below the hysteresis threshold.
pub proof fn lemma_selection_is_current_or_top(
    t: ThreatTable,
    current: Option<u64>,
    is_melee: bool,
    tick: u64,
)
    requires
        !(t.spec_taunt_target() is Some && tick < t.spec_taunt_expire_tick()),
        t.spec_top_threat() is Some,
    ensures
        ({
            let (top_id, top_threat) = t.spec_top_threat()->0;
            t.spec_select_target(current, is_melee, tick) == current || t.spec_select_target(
                current,
                is_melee,
                tick,
            ) == Some(top_id)
        }),
{
}

/// A taunt persists: after `apply_taunt(e, d, t)`, every later table whose taunt fields were
/// kept (as adding, decaying or removing other combatants' threat keeps them) selects `e` at
/// every tick before `t + d` (saturating), whatever the threat standings.
pub proof fn lemma_taunt_persists(
    later: ThreatTable,
    e: u64,
    d: u64,
    t: u64,
    current: Option<u64>,
    is_melee: bool,
    q: u64,
)
    requires
        later.spec_taunt_target() == Some(e),
        later.spec_taunt_expire_tick() == crate::partition::sat_add_u64(t, d),
        q < crate::partition::sat_add_u64(t, d),
    ensures
        later.spec_select_target(current, is_melee, q) == Some(e),
{
    lemma_taunt_overrides_threat(later, current, is_melee, q);
}


/// Threat from an attacker already in the table accumulates on its own entry: that entry keeps
/// the attacker, gains `amount` threat (saturating), records `tick` as the attacker's latest
/// threat, adds `amount` to damage dealt or to healing done as `is_damage` says, and every other
/// slot stays as it was.
pub proof fn lemma_repeat_threat_refreshes_entry(
    s: Seq<Option<ThreatEntry>>,
    id: u64,
    amount: u32,
    is_damage: bool,
    tick: u64,
)
    requires
        exists|i: int| 0 <= i < s.len() && holds_id(id)(#[trigger] s[i]),
    ensures
        ({
            let k = first_index(s, holds_id(id));
            let after = spec_add_threat(s, id, amount, is_damage, tick);
            let e0 = s[k]->0;
            let e1 = after[k]->0;
            &&& 0 <= k < s.len()
            &&& after.len() == s.len()
            &&& after[k] is Some
            &&& e1.entity_id == id
            &&& e1.last_threat_tick == tick
            &&& e1.threat_points == (if e0.threat_points + amount > u32::MAX {
                u32::MAX as int
            } else {
                e0.threat_points + amount
            })
            &&& e1.damage_dealt == (if !is_damage {
                e0.damage_dealt as int
            } else if e0.damage_dealt + amount > u32::MAX {
                u32::MAX as int
            } else {
                e0.damage_dealt + amount
            })
            &&& e1.healing_done == (if is_damage {
                e0.healing_done as int
            } else if e0.healing_done + amount > u32::MAX {
                u32::MAX as int
            } else {
                e0.healing_done + amount
            })
            &&& forall|j: int| 0 <= j < s.len() && j != k ==> after[j] == s[j]
        }),
{
    lemma_first_index(s, holds_id(id));
    let i = choose|i: int| 0 <= i < s.len() && holds_id(id)(#[trigger] s[i]);
    assert(holds_id(id)(s[i]));
}


/// A new attacker in a table with a free slot takes the first free slot with exactly the threat
/// it generated, recorded as damage or healing as `is_damage` says, and `tick` as its latest
/// threat; every other slot stays as it was.
pub proof fn lemma_new_attacker_enters(
    s: Seq<Option<ThreatEntry>>,
    id: u64,
    amount: u32,
    is_damage: bool,
    tick: u64,
    f: int,
)
    requires
        forall|i: int| 0 <= i < s.len() ==> !holds_id(id)(#[trigger] s[i]),
        0 <= f < s.len(),
        s[f] is None,
        forall|i: int| 0 <= i < f ==> (#[trigger] s[i]) is Some,
    ensures
        ({
            let after = spec_add_threat(s, id, amount, is_damage, tick);
            &&& after.len() == s.len()
            &&& after[f] == Some(
                ThreatEntry {
                    entity_id: id,
                    threat_points: amount,
                    damage_dealt: if is_damage { amount } else { 0 },
                    healing_done: if is_damage { 0 } else { amount },
                    last_threat_tick: tick,
                },
            )
            &&& forall|j: int| 0 <= j < s.len() && j != f ==> after[j] == s[j]
        }),
{
    lemma_first_index_none(s, holds_id(id));
    assert forall|i: int| 0 <= i < f implies !is_vacant()(#[trigger] s[i]) by {}
    lemma_first_index_is(s, is_vacant(), f);
}

} // verus!
