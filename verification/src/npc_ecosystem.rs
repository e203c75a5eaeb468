//! NPC simulation level-of-detail tiers, behaviour states, and the per-tick behaviour decision
//! of one NPC. Positions, distances and perception are floating point and stay with the caller,
//! which hands the decision what it sensed and applies the movement it asks for.
use vstd::prelude::*;

use crate::slots::first_index;
use crate::threat::{holds_id, spec_add_threat, ThreatEntry, ThreatTable};

verus! {

/// Simulation level of detail of an NPC.
#[derive(Debug, Clone, Copy, PartialEq, Eq, Structural)]
pub enum NpcLodTier {
    /// Full-rate simulation near players in combat.
    ActiveCombat,
    /// Reduced-rate simulation at mid distance.
    MidTier,
    /// Suspended simulation far from all players.
    Dormant,
}

/// Behaviour state of an NPC.
#[derive(Debug, Clone, Copy, PartialEq, Eq, Structural)]
pub enum NpcState {
    /// Standing idle.
    Idle,
    /// Following a patrol route.
    Patrolling,
    /// Chasing a target.
    Chasing,
    /// Attacking a target.
    Attacking,
    /// Returning to its leash point.
    Evading,
}

/// Whether an NPC at `lod` is simulated in tick `current_tick`: never when dormant, every
/// tenth tick (2 Hz) at mid tier, every tick in active combat.
pub open spec fn spec_lod_ticks(lod: NpcLodTier, current_tick: u64) -> bool {
    match lod {
        NpcLodTier::Dormant => false,
        NpcLodTier::MidTier => current_tick % 10 == 0,
        NpcLodTier::ActiveCombat => true,
    }
}

/// Whether an NPC at `lod` is simulated in tick `current_tick`.
pub fn lod_ticks(lod: NpcLodTier, current_tick: u64) -> (b: bool)
    ensures
        b == spec_lod_ticks(lod, current_tick),
{
    match lod {
        NpcLodTier::Dormant => false,
        NpcLodTier::MidTier => current_tick % 10 == 0,
        NpcLodTier::ActiveCombat => true,
    }
}

/// Distance band of the nearest player from an NPC.
#[derive(Debug, Clone, Copy, PartialEq, Eq, Structural)]
pub enum PlayerProximity {
    /// Within 15 m.
    Within15,
    /// Beyond 15 m and within 50 m.
    Within50,
    /// Beyond 50 m, or no player at all.
    Beyond,
}

/// Level of detail of an NPC in `state` whose nearest player is `nearest`.
pub open spec fn spec_lod_for(state: NpcState, nearest: PlayerProximity) -> NpcLodTier {
    if state == NpcState::Chasing || state == NpcState::Attacking {
        NpcLodTier::ActiveCombat
    } else {
        match nearest {
            PlayerProximity::Within15 => NpcLodTier::ActiveCombat,
            PlayerProximity::Within50 => NpcLodTier::MidTier,
            PlayerProximity::Beyond => NpcLodTier::Dormant,
        }
    }
}

/// Distance band of a player from an NPC: within melee reach (2.5 m), within the 3 m an
/// attacker holds on to, or farther.
#[derive(Debug, Clone, Copy, PartialEq, Eq, Structural)]
pub enum TargetRange {
    /// At most 2.5 m away.
    Melee,
    /// More than 2.5 m and at most 3 m away.
    Hold,
    /// More than 3 m away.
    Far,
}

/// What an NPC sensed this tick, as measured by the caller.
#[derive(Debug, Clone, Copy, PartialEq, Eq, Structural)]
pub struct NpcSenses {
    /// The NPC stands beyond its leash radius.
    pub beyond_leash: bool,
    /// The NPC stands within 1 m of its spawn origin.
    pub near_spawn: bool,
    /// The first player (in player order) the NPC perceives, if any.
    pub perceived_player: Option<u64>,
}

/// Movement an NPC tick asks of the caller, which holds the NPC's position and health.
#[derive(Debug, Clone, Copy, PartialEq, Eq, Structural)]
pub enum NpcMovement {
    /// Stay in place.
    Stay,
    /// Snap to the spawn origin (health is restored to full).
    ResetAtSpawn,
    /// Walk one step (at most 0.5 m) toward the spawn origin.
    StepTowardSpawn,
    /// Walk one step (at most 0.3 m) toward the given player.
    StepTowardTarget(u64),
}

/// Change a tick makes to an NPC's threat table.
#[derive(Debug, Clone, Copy, PartialEq, Eq, Structural)]
pub enum ThreatChange {
    /// Left as it was.
    Keep,
    /// Emptied (leash broken).
    Clear,
    /// 100 threat added for a newly perceived player.
    Aggro(u64),
    /// A target no longer among the players removed.
    Forget(u64),
}

/// Outcome of one NPC tick.
pub struct NpcTickOutcome {
    /// Whether the NPC was simulated at all this tick.
    pub ticked: bool,
    /// Behaviour state afterwards.
    pub state: NpcState,
    /// Current target afterwards.
    pub target: Option<u64>,
    /// Movement to apply.
    pub movement: NpcMovement,
    /// Change to the threat table.
    pub threat: ThreatChange,
}

/// Player listing predicate: the listing is of player `id`.
pub open spec fn lists_player(id: u64) -> spec_fn((u64, TargetRange)) -> bool {
    |x: (u64, TargetRange)| x.0 == id
}

/// Range band of `id` among the players, the first listing winning.
pub open spec fn range_of(players: Seq<(u64, TargetRange)>, id: u64) -> Option<TargetRange> {
    let k = first_index(players, lists_player(id));
    if k >= 0 {
        Some(players[k].1)
    } else {
        None
    }
}

/// One NPC tick: the level of detail gates it; breaking the leash starts evading (threat and
/// target dropped); then the state acts. Evading walks home and, once there, resets to idle.
/// Idle or patrolling, a perceived player is aggroed and chased. Chasing re-selects the target
/// (ranged hysteresis) and attacks it within melee reach, steps toward it otherwise, forgets it
/// if it left; with no target it evades. Attacking re-selects (melee hysteresis), chases a target
/// beyond 3 m or one that left (forgetting it), and evades with no target.
pub open spec fn npc_tick(
    state: NpcState,
    lod: NpcLodTier,
    target: Option<u64>,
    threat: ThreatTable,
    current_tick: u64,
    senses: NpcSenses,
    players: Seq<(u64, TargetRange)>,
) -> NpcTickOutcome {
    if !spec_lod_ticks(lod, current_tick) {
        NpcTickOutcome { ticked: false, state, target, movement: NpcMovement::Stay, threat: ThreatChange::Keep }
    } else if senses.beyond_leash && state != NpcState::Evading {
        NpcTickOutcome {
            ticked: true,
            state: if senses.near_spawn { NpcState::Idle } else { NpcState::Evading },
            target: None,
            movement: if senses.near_spawn { NpcMovement::ResetAtSpawn } else { NpcMovement::StepTowardSpawn },
            threat: ThreatChange::Clear,
        }
    } else {
        match state {
            NpcState::Evading => NpcTickOutcome {
                ticked: true,
                state: if senses.near_spawn { NpcState::Idle } else { NpcState::Evading },
                target,
                movement: if senses.near_spawn { NpcMovement::ResetAtSpawn } else { NpcMovement::StepTowardSpawn },
                threat: ThreatChange::Keep,
            },
            NpcState::Idle | NpcState::Patrolling => match senses.perceived_player {
                Some(p) => NpcTickOutcome {
                    ticked: true,
                    state: NpcState::Chasing,
                    target: Some(p),
                    movement: NpcMovement::Stay,
                    threat: ThreatChange::Aggro(p),
                },
                None => NpcTickOutcome { ticked: true, state, target, movement: NpcMovement::Stay, threat: ThreatChange::Keep },
            },
            NpcState::Chasing => {
                let t = threat.spec_select_target(target, false, current_tick);
                match t {
                    None => NpcTickOutcome { ticked: true, state: NpcState::Evading, target: t, movement: NpcMovement::Stay, threat: ThreatChange::Keep },
                    Some(id) => match range_of(players, id) {
                        Some(TargetRange::Melee) => NpcTickOutcome { ticked: true, state: NpcState::Attacking, target: t, movement: NpcMovement::Stay, threat: ThreatChange::Keep },
                        Some(_) => NpcTickOutcome { ticked: true, state: NpcState::Chasing, target: t, movement: NpcMovement::StepTowardTarget(id), threat: ThreatChange::Keep },
                        None => NpcTickOutcome { ticked: true, state: NpcState::Chasing, target: t, movement: NpcMovement::Stay, threat: ThreatChange::Forget(id) },
                    },
                }
            },
            NpcState::Attacking => {
                let t = threat.spec_select_target(target, true, current_tick);
                match t {
                    None => NpcTickOutcome { ticked: true, state: NpcState::Evading, target: t, movement: NpcMovement::Stay, threat: ThreatChange::Keep },
                    Some(id) => match range_of(players, id) {
                        Some(TargetRange::Far) => NpcTickOutcome { ticked: true, state: NpcState::Chasing, target: t, movement: NpcMovement::Stay, threat: ThreatChange::Keep },
                        Some(_) => NpcTickOutcome { ticked: true, state: NpcState::Attacking, target: t, movement: NpcMovement::Stay, threat: ThreatChange::Keep },
                        None => NpcTickOutcome { ticked: true, state: NpcState::Chasing, target: t, movement: NpcMovement::Stay, threat: ThreatChange::Forget(id) },
                    },
                }
            },
        }
    }
}

/// A simulated NPC that finds itself beyond its leash, and is not already evading, drops its
/// target and its whole threat table and heads home; a dormant NPC is never simulated.
pub proof fn lemma_leash_resets_aggro(
    state: NpcState,
    lod: NpcLodTier,
    target: Option<u64>,
    threat: ThreatTable,
    current_tick: u64,
    senses: NpcSenses,
    players: Seq<(u64, TargetRange)>,
)
    ensures
        spec_lod_ticks(lod, current_tick) && senses.beyond_leash && state != NpcState::Evading ==> {
            let o = npc_tick(state, lod, target, threat, current_tick, senses, players);
            &&& o.target is None
            &&& o.threat == ThreatChange::Clear
            &&& (o.movement == NpcMovement::StepTowardSpawn || o.movement == NpcMovement::ResetAtSpawn)
        },
        !npc_tick(state, NpcLodTier::Dormant, target, threat, current_tick, senses, players).ticked,
{
}

/// The threat table `after` is `before` changed by `change` at `current_tick`.
pub open spec fn threat_changed(before: ThreatTable, after: ThreatTable, change: ThreatChange, current_tick: u64) -> bool {
    match change {
        ThreatChange::Keep => after == before,
        ThreatChange::Clear => {
            &&& after.spec_entries() == Seq::new(16, |i: int| None::<ThreatEntry>)
            &&& after.spec_taunt_target() is None
            &&& after.spec_taunt_expire_tick() == 0
        },
        ThreatChange::Aggro(p) => {
            &&& after.spec_entries() == spec_add_threat(before.spec_entries(), p, 100, false, current_tick)
            &&& after.spec_taunt_target() == before.spec_taunt_target()
            &&& after.spec_taunt_expire_tick() == before.spec_taunt_expire_tick()
        },
        ThreatChange::Forget(id) => {
            let k = first_index(before.spec_entries(), holds_id(id));
            &&& after.spec_entries() == if k >= 0 {
                before.spec_entries().update(k, None)
            } else {
                before.spec_entries()
            }
            &&& after.spec_taunt_target() == (if before.spec_taunt_target() == Some(id) {
                None
            } else {
                before.spec_taunt_target()
            })
            &&& after.spec_taunt_expire_tick() == before.spec_taunt_expire_tick()
        },
    }
}

/// The behaviour of one NPC: its state, level of detail, target and threat table.
pub struct NpcBrain {
    state: NpcState,
    lod: NpcLodTier,
    health: u32,
    max_health: u32,
    target: Option<u64>,
    last_tick: u64,
    threat: ThreatTable,
}

impl NpcBrain {
    /// Behaviour state.
    pub closed spec fn spec_state(&self) -> NpcState {
        self.state
    }

    /// Level of detail.
    pub closed spec fn spec_lod(&self) -> NpcLodTier {
        self.lod
    }

    /// Current target.
    pub closed spec fn spec_target(&self) -> Option<u64> {
        self.target
    }

    /// Current health.
    pub closed spec fn spec_health(&self) -> u32 {
        self.health
    }

    /// Full health.
    pub closed spec fn spec_max_health(&self) -> u32 {
        self.max_health
    }

    /// Last tick in which the NPC was simulated.
    pub closed spec fn spec_last_tick(&self) -> u64 {
        self.last_tick
    }

    /// Threat table.
    pub closed spec fn spec_threat(&self) -> ThreatTable {
        self.threat
    }

    /// Invariant: the threat table is well formed.
    pub closed spec fn wf(&self) -> bool {
        self.threat.wf()
    }

    /// An idle, dormant NPC at full health `max_health`, with no target and an empty threat table.
    pub fn new(max_health: u32) -> (b: Self)
        ensures
            b.wf(),
            b.spec_state() == NpcState::Idle,
            b.spec_lod() == NpcLodTier::Dormant,
            b.spec_health() == max_health,
            b.spec_max_health() == max_health,
            b.spec_target() is None,
            b.spec_last_tick() == 0,
            b.spec_threat().spec_entries() == Seq::new(16, |i: int| None::<ThreatEntry>),
            b.spec_threat().spec_taunt_target() is None,
    {
        NpcBrain {
            state: NpcState::Idle,
            lod: NpcLodTier::Dormant,
            health: max_health,
            max_health,
            target: None,
            last_tick: 0,
            threat: ThreatTable::new(),
        }
    }

    /// Behaviour state.
    pub fn state(&self) -> (s: NpcState)
        ensures
            s == self.spec_state(),
    {
        self.state
    }

    /// Current target.
    pub fn target(&self) -> (t: Option<u64>)
        ensures
            t == self.spec_target(),
    {
        self.target
    }

    /// The threat table.
    pub fn threat_table(&self) -> (t: &ThreatTable)
        ensures
            *t == self.spec_threat(),
    {
        &self.threat
    }

    /// Current health.
    pub fn health(&self) -> (h: u32)
        ensures
            h == self.spec_health(),
    {
        self.health
    }

    /// Level of detail.
    pub fn lod(&self) -> (l: NpcLodTier)
        ensures
            l == self.spec_lod(),
    {
        self.lod
    }

    /// Re-tiers the level of detail from the nearest player's band: an NPC in combat (chasing
    /// or attacking) always runs at full rate; otherwise within 15 m is active, within 50 m mid
    /// tier, farther dormant.
    pub fn update_lod(&mut self, nearest_player: PlayerProximity)
        ensures
            final(self).spec_lod() == spec_lod_for(old(self).spec_state(), nearest_player),
            final(self).spec_state() == old(self).spec_state(),
            final(self).spec_target() == old(self).spec_target(),
            final(self).spec_health() == old(self).spec_health(),
            final(self).spec_max_health() == old(self).spec_max_health(),
            final(self).spec_last_tick() == old(self).spec_last_tick(),
            final(self).spec_threat() == old(self).spec_threat(),
            final(self).wf() == old(self).wf(),
    {
        self.lod = if self.state == NpcState::Chasing || self.state == NpcState::Attacking {
            NpcLodTier::ActiveCombat
        } else {
            match nearest_player {
                PlayerProximity::Within15 => NpcLodTier::ActiveCombat,
                PlayerProximity::Within50 => NpcLodTier::MidTier,
                PlayerProximity::Beyond => NpcLodTier::Dormant,
            }
        };
    }

    /// Damage from `attacker_id`: an evading NPC is immune; otherwise health drops (saturating),
    /// the attacker gains the damage as threat, the NPC goes to full-rate simulation, and an idle
    /// or patrolling NPC starts chasing the attacker.
    pub fn apply_damage(&mut self, attacker_id: u64, damage_amount: u32, current_tick: u64)
        requires
            old(self).wf(),
        ensures
            final(self).wf(),
            final(self).spec_max_health() == old(self).spec_max_health(),
            final(self).spec_last_tick() == old(self).spec_last_tick(),
            old(self).spec_state() == NpcState::Evading ==> {
                &&& final(self).spec_state() == old(self).spec_state()
                &&& final(self).spec_lod() == old(self).spec_lod()
                &&& final(self).spec_target() == old(self).spec_target()
                &&& final(self).spec_health() == old(self).spec_health()
                &&& final(self).spec_threat() == old(self).spec_threat()
            },
            old(self).spec_state() != NpcState::Evading ==> {
                let starts_chase = old(self).spec_state() == NpcState::Idle || old(self).spec_state()
                    == NpcState::Patrolling;
                &&& final(self).spec_health() == (if old(self).spec_health() >= damage_amount {
                    old(self).spec_health() - damage_amount
                } else {
                    0
                })
                &&& final(self).spec_lod() == NpcLodTier::ActiveCombat
                &&& final(self).spec_threat().spec_entries() == spec_add_threat(
                    old(self).spec_threat().spec_entries(),
                    attacker_id,
                    damage_amount,
                    true,
                    current_tick,
                )
                &&& final(self).spec_threat().spec_taunt_target() == old(self).spec_threat().spec_taunt_target()
                &&& final(self).spec_threat().spec_taunt_expire_tick()
                    == old(self).spec_threat().spec_taunt_expire_tick()
                &&& final(self).spec_state() == (if starts_chase {
                    NpcState::Chasing
                } else {
                    old(self).spec_state()
                })
                &&& final(self).spec_target() == (if starts_chase {
                    Some(attacker_id)
                } else {
                    old(self).spec_target()
                })
            },
    {
        if self.state == NpcState::Evading {
            return;
        }
        self.health = self.health.saturating_sub(damage_amount);
        self.threat.add_threat(attacker_id, damage_amount, true, current_tick);
        self.lod = NpcLodTier::ActiveCombat;
        if self.state == NpcState::Idle || self.state == NpcState::Patrolling {
            self.state = NpcState::Chasing;
            self.target = Some(attacker_id);
        }
    }

    /// A tank's taunt: unless evading, the NPC goes to full-rate simulation, the taunt locks
    /// its threat table on `tank_id` for `duration_ticks`, and the tank becomes its target.
    pub fn apply_taunt(&mut self, tank_id: u64, duration_ticks: u64, current_tick: u64)
        requires
            old(self).wf(),
        ensures
            final(self).wf(),
            final(self).spec_state() == old(self).spec_state(),
            final(self).spec_health() == old(self).spec_health(),
            final(self).spec_max_health() == old(self).spec_max_health(),
            final(self).spec_last_tick() == old(self).spec_last_tick(),
            old(self).spec_state() == NpcState::Evading ==> {
                &&& final(self).spec_lod() == old(self).spec_lod()
                &&& final(self).spec_target() == old(self).spec_target()
                &&& final(self).spec_threat() == old(self).spec_threat()
            },
            old(self).spec_state() != NpcState::Evading ==> {
                &&& final(self).spec_lod() == NpcLodTier::ActiveCombat
                &&& final(self).spec_target() == Some(tank_id)
                &&& final(self).spec_threat().spec_entries() == (if first_index(
                    old(self).spec_threat().spec_entries(),
                    holds_id(tank_id),
                ) >= 0 {
                    old(self).spec_threat().spec_entries()
                } else {
                    spec_add_threat(old(self).spec_threat().spec_entries(), tank_id, 1, false, current_tick)
                })
                &&& final(self).spec_threat().spec_taunt_target() == Some(tank_id)
                &&& final(self).spec_threat().spec_taunt_expire_tick() == crate::partition::sat_add_u64(
                    current_tick,
                    duration_ticks,
                )
            },
    {
        if self.state != NpcState::Evading {
            self.lod = NpcLodTier::ActiveCombat;
            self.threat.apply_taunt(tank_id, duration_ticks, current_tick);
            self.target = Some(tank_id);
        }
    }

    /// Runs one tick of behaviour from what the NPC sensed and the range band of each player
    /// (`players`, in player order), and returns the movement the caller applies.
    pub fn tick(&mut self, current_tick: u64, senses: NpcSenses, players: &[(u64, TargetRange)]) -> (m:
        NpcMovement)
        requires
            old(self).wf(),
        ensures
            final(self).wf(),
            ({
                let o = npc_tick(
                    old(self).spec_state(),
                    old(self).spec_lod(),
                    old(self).spec_target(),
                    old(self).spec_threat(),
                    current_tick,
                    senses,
                    players@,
                );
                &&& m == o.movement
                &&& final(self).spec_state() == o.state
                &&& final(self).spec_target() == o.target
                &&& final(self).spec_lod() == old(self).spec_lod()
                &&& final(self).spec_max_health() == old(self).spec_max_health()
                &&& final(self).spec_health() == (if o.movement == NpcMovement::ResetAtSpawn {
                    old(self).spec_max_health()
                } else {
                    old(self).spec_health()
                })
                &&& final(self).spec_last_tick() == (if o.ticked {
                    current_tick
                } else {
                    old(self).spec_last_tick()
                })
                &&& threat_changed(old(self).spec_threat(), final(self).spec_threat(), o.threat, current_tick)
            }),
    {
        if !lod_ticks(self.lod, current_tick) {
            return NpcMovement::Stay;
        }
        self.last_tick = current_tick;
        if senses.beyond_leash && self.state != NpcState::Evading {
            self.state = NpcState::Evading;
            self.threat.clear();
            self.target = None;
        }
        match self.state {
            NpcState::Evading => {
                if senses.near_spawn {
                    self.state = NpcState::Idle;
                    self.health = self.max_health;
                    NpcMovement::ResetAtSpawn
                } else {
                    NpcMovement::StepTowardSpawn
                }
            },
            NpcState::Idle | NpcState::Patrolling => {
                if let Some(p) = senses.perceived_player {
                    self.threat.add_threat(p, 100, false, current_tick);
                    self.target = Some(p);
                    self.state = NpcState::Chasing;
                }
                NpcMovement::Stay
            },
            NpcState::Chasing => {
                self.target = self.threat.select_target(self.target, false, current_tick);
                match self.target {
                    None => {
                        self.state = NpcState::Evading;
                        NpcMovement::Stay
                    },
                    Some(id) => match find_range(players, id) {
                        Some(TargetRange::Melee) => {
                            self.state = NpcState::Attacking;
                            NpcMovement::Stay
                        },
                        Some(_) => NpcMovement::StepTowardTarget(id),
                        None => {
                            self.threat.remove_entity(id);
                            NpcMovement::Stay
                        },
                    },
                }
            },
            NpcState::Attacking => {
                self.target = self.threat.select_target(self.target, true, current_tick);
                match self.target {
                    None => {
                        self.state = NpcState::Evading;
                        NpcMovement::Stay
                    },
                    Some(id) => match find_range(players, id) {
                        Some(TargetRange::Far) => {
                            self.state = NpcState::Chasing;
                            NpcMovement::Stay
                        },
                        Some(_) => NpcMovement::Stay,
                        None => {
                            self.threat.remove_entity(id);
                            self.state = NpcState::Chasing;
                            NpcMovement::Stay
                        },
                    },
                }
            },
        }
    }
}

/// Range band of `id` among the players, the first listing winning.
fn find_range(players: &[(u64, TargetRange)], id: u64) -> (r: Option<TargetRange>)
    ensures
        r == range_of(players@, id),
{
    let ghost p = lists_player(id);
    let mut i: usize = 0;
    while i < players.len()
        invariant
            i <= players@.len(),
            p == lists_player(id),
            forall|j: int| 0 <= j < i ==> !p(#[trigger] players@[j]),
        decreases players@.len() - i,
    {
        if players[i].0 == id {
            proof {
                crate::slots::lemma_first_index_is(players@, p, i as int);
            }
            return Some(players[i].1);
        }
        i = i + 1;
    }
    proof {
        crate::slots::lemma_first_index_none(players@, p);
    }
    None
}

} // verus!
