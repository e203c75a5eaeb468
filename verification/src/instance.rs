//! Ephemeral dungeon instances with a four-stage lifecycle, allocated from a fixed room pool.
use vstd::prelude::*;

use crate::error::{InstanceId, WorldError};
use crate::slots::{
    count_some, first_index, lemma_count_some_bound, lemma_count_some_update, lemma_first_index,
    lemma_first_index_is, lemma_first_index_none,
};

verus! {

/// Maximum number of players allowed in a single co-op instance.
pub const MAX_PARTY_MEMBERS: usize = 4;

/// Ticks (60 s at 20 Hz) of victory grace period before a cleared room is purged.
pub const ROOM_CLEANUP_TIMEOUT_TICKS: u32 = 1200;

/// Ticks (30 min at 20 Hz) after which an unfinished combat is forcibly timed out.
pub const COMBAT_TIMEOUT_TICKS: u32 = 36_000;

/// Four-stage lifecycle state machine for an ephemeral dungeon room.
#[derive(Debug, Clone, Copy, PartialEq, Eq, Structural)]
pub enum InstanceLifecycle {
    /// Room slot claimed and awaiting party connections.
    Allocated,
    /// Active combat simulation with connected players.
    ActiveCombat,
    /// Boss defeated; grace period for reward distribution.
    VictoryReward,
    /// Room abandoned or expired; scheduled for reclamation.
    PendingCleanup,
}

/// Ephemeral dungeon instance simulating an isolated co-op battle.
#[derive(Debug, Clone, Copy)]
pub struct DungeonInstance {
    /// Unique instance identifier.
    pub id: InstanceId,
    /// Current lifecycle state.
    pub state: InstanceLifecycle,
    /// Connected player entity IDs (fixed 4-slot party array).
    pub party_members: [Option<u32>; 4],
    /// Current count of active party members.
    pub party_count: usize,
    /// Number of simulation ticks elapsed since room allocation.
    pub elapsed_ticks: u32,
    /// Value of `elapsed_ticks` when the boss fell; the loot grace period counts from here.
    pub victory_tick: u32,
    /// Current health of the instance boss.
    pub boss_health: u32,
    /// Maximum initial health of the instance boss.
    pub boss_max_health: u32,
}

/// Slot holds player `id`.
pub open spec fn holds_player(id: u32) -> spec_fn(Option<u32>) -> bool {
    |s: Option<u32>| s == Some(id)
}

/// Slot is free.
pub open spec fn free_party_slot() -> spec_fn(Option<u32>) -> bool {
    |s: Option<u32>| s is None
}

/// The instance after one simulation tick, and whether the room stays alive.
pub open spec fn spec_tick(d: DungeonInstance) -> (DungeonInstance, bool) {
    let elapsed = if d.elapsed_ticks == u32::MAX { u32::MAX } else { (d.elapsed_ticks + 1) as u32 };
    let state = match d.state {
        InstanceLifecycle::ActiveCombat => if elapsed > COMBAT_TIMEOUT_TICKS {
            InstanceLifecycle::PendingCleanup
        } else {
            d.state
        },
        InstanceLifecycle::VictoryReward => if elapsed as int - d.victory_tick as int
            > ROOM_CLEANUP_TIMEOUT_TICKS {
            InstanceLifecycle::PendingCleanup
        } else {
            d.state
        },
        _ => d.state,
    };
    (DungeonInstance { elapsed_ticks: elapsed, state, ..d }, !(d.state is PendingCleanup))
}

impl DungeonInstance {
    /// Creates a newly allocated dungeon instance with a full-health boss and an empty party.
    pub fn new(id: InstanceId, boss_max_health: u32) -> (d: Self)
        ensures
            d.id == id,
            d.state == InstanceLifecycle::Allocated,
            d.party_members@ == seq![None::<u32>, None, None, None],
            d.party_count == 0,
            d.elapsed_ticks == 0,
            d.victory_tick == 0,
            d.boss_health == boss_max_health,
            d.boss_max_health == boss_max_health,
    {
        let d = DungeonInstance {
            id,
            state: InstanceLifecycle::Allocated,
            party_members: [None; 4],
            party_count: 0,
            elapsed_ticks: 0,
            victory_tick: 0,
            boss_health: boss_max_health,
            boss_max_health,
        };
        assert(d.party_members@ =~= seq![None::<u32>, None, None, None]);
        d
    }

    /// Adds a player to the party. Rejected in `PendingCleanup`; a member joining again is a
    /// no-op; otherwise the first free slot is taken (or `PartyFull`), activating combat.
    #[verifier::loop_isolation(false)]
    pub fn join_party(&mut self, player_id: u32) -> (r: Result<(), WorldError>)
        requires
            old(self).party_count < usize::MAX,
        ensures
            old(self).state is PendingCleanup ==> r == Err::<(), WorldError>(
                WorldError::InvalidInstanceState {
                    expected: "Allocated or ActiveCombat",
                    actual: "PendingCleanup",
                },
            ) && *final(self) == *old(self),
            !(old(self).state is PendingCleanup) && first_index(
                old(self).party_members@,
                holds_player(player_id),
            ) >= 0 ==> r is Ok && *final(self) == *old(self),
            !(old(self).state is PendingCleanup) && first_index(
                old(self).party_members@,
                holds_player(player_id),
            ) < 0 ==> ({
                let f = first_index(old(self).party_members@, free_party_slot());
                if f < 0 {
                    r == Err::<(), WorldError>(WorldError::PartyFull) && *final(self) == *old(self)
                } else {
                    &&& r is Ok
                    &&& final(self).party_members@ == old(self).party_members@.update(f, Some(player_id))
                    &&& final(self).party_count == old(self).party_count + 1
                    &&& final(self).state == (if old(self).state is Allocated {
                        InstanceLifecycle::ActiveCombat
                    } else {
                        old(self).state
                    })
                    &&& final(self).id == old(self).id
                    &&& final(self).elapsed_ticks == old(self).elapsed_ticks
                    &&& final(self).victory_tick == old(self).victory_tick
                    &&& final(self).boss_health == old(self).boss_health
                    &&& final(self).boss_max_health == old(self).boss_max_health
                }
            }),
    {
        if self.state == InstanceLifecycle::PendingCleanup {
            return Err(
                WorldError::InvalidInstanceState {
                    expected: "Allocated or ActiveCombat",
                    actual: "PendingCleanup",
                },
            );
        }
        let ghost s = self.party_members@;
        let ghost p = holds_player(player_id);
        let mut i: usize = 0;
        while i < 4
            invariant
                i <= 4,
                s == self.party_members@,
                s.len() == 4,
                *self == *old(self),
                forall|j: int| 0 <= j < i ==> !p(#[trigger] s[j]),
            decreases 4 - i,
        {
            if self.party_members[i] == Some(player_id) {
                proof {
                    lemma_first_index_is(s, p, i as int);
                }
                return Ok(());
            }
            i = i + 1;
        }
        proof {
            lemma_first_index_none(s, p);
        }
        let ghost q = free_party_slot();
        let mut i: usize = 0;
        while i < 4
            invariant
                i <= 4,
                s == self.party_members@,
                s.len() == 4,
                *self == *old(self),
                forall|j: int| 0 <= j < i ==> !q(#[trigger] s[j]),
            decreases 4 - i,
        {
            if self.party_members[i].is_none() {
                proof {
                    lemma_first_index_is(s, q, i as int);
                }
                self.party_members[i] = Some(player_id);
                self.party_count = self.party_count + 1;
                if self.state == InstanceLifecycle::Allocated {
                    self.state = InstanceLifecycle::ActiveCombat;
                }
                return Ok(());
            }
            i = i + 1;
        }
        proof {
            lemma_first_index_none(s, q);
        }
        Err(WorldError::PartyFull)
    }

    /// Removes a player; an emptied party moves the room to `PendingCleanup`.
    #[verifier::loop_isolation(false)]
    pub fn leave_party(&mut self, player_id: u32) -> (r: Result<(), WorldError>)
        ensures
            ({
                let k = first_index(old(self).party_members@, holds_player(player_id));
                if k < 0 {
                    r == Err::<(), WorldError>(WorldError::EntityNotFound(player_id)) && *final(self)
                        == *old(self)
                } else {
                    let n = if old(self).party_count == 0 { 0 } else { (old(self).party_count - 1) as usize };
                    &&& r is Ok
                    &&& final(self).party_members@ == old(self).party_members@.update(k, None)
                    &&& final(self).party_count == n
                    &&& final(self).state == (if n == 0 {
                        InstanceLifecycle::PendingCleanup
                    } else {
                        old(self).state
                    })
                    &&& final(self).id == old(self).id
                    &&& final(self).elapsed_ticks == old(self).elapsed_ticks
                    &&& final(self).victory_tick == old(self).victory_tick
                    &&& final(self).boss_health == old(self).boss_health
                    &&& final(self).boss_max_health == old(self).boss_max_health
                }
            }),
    {
        let ghost s = self.party_members@;
        let ghost p = holds_player(player_id);
        let mut i: usize = 0;
        while i < 4
            invariant
                i <= 4,
                s == self.party_members@,
                s.len() == 4,
                *self == *old(self),
                forall|j: int| 0 <= j < i ==> !p(#[trigger] s[j]),
            decreases 4 - i,
        {
            if self.party_members[i] == Some(player_id) {
                proof {
                    lemma_first_index_is(s, p, i as int);
                }
                self.party_members[i] = None;
                self.party_count = self.party_count.saturating_sub(1);
                if self.party_count == 0 {
                    self.state = InstanceLifecycle::PendingCleanup;
                }
                return Ok(());
            }
            i = i + 1;
        }
        proof {
            lemma_first_index_none(s, p);
        }
        Err(WorldError::EntityNotFound(player_id))
    }

    /// Applies damage to the boss during combat; returns true when this defeats it.
    pub fn apply_boss_damage(&mut self, damage: u32) -> (defeated: bool)
        ensures
            !(old(self).state is ActiveCombat) ==> !defeated && *final(self) == *old(self),
            old(self).state is ActiveCombat ==> ({
                let h = if damage >= old(self).boss_health { 0 } else { (old(self).boss_health - damage) as u32 };
                &&& final(self).boss_health == h
                &&& defeated == (h == 0)
                &&& final(self).state == (if h == 0 {
                    InstanceLifecycle::VictoryReward
                } else {
                    InstanceLifecycle::ActiveCombat
                })
                &&& final(self).party_members == old(self).party_members
                &&& final(self).party_count == old(self).party_count
                &&& final(self).id == old(self).id
                &&& final(self).elapsed_ticks == old(self).elapsed_ticks
                &&& final(self).victory_tick == (if h == 0 {
                    old(self).elapsed_ticks
                } else {
                    old(self).victory_tick
                })
                &&& final(self).boss_max_health == old(self).boss_max_health
            }),
    {
        if self.state != InstanceLifecycle::ActiveCombat {
            return false;
        }
        self.boss_health = self.boss_health.saturating_sub(damage);
        if self.boss_health == 0 {
            self.state = InstanceLifecycle::VictoryReward;
            self.victory_tick = self.elapsed_ticks;
            true
        } else {
            false
        }
    }

    /// Advances the room clock; returns false once the room awaits cleanup. Combat times out
    /// 30 minutes after allocation; a cleared room keeps 60 seconds of loot grace counted from
    /// the boss's defeat.
    pub fn tick(&mut self) -> (alive: bool)
        ensures
            (*final(self), alive) == spec_tick(*old(self)),
    {
        self.elapsed_ticks = self.elapsed_ticks.saturating_add(1);
        match self.state {
            InstanceLifecycle::Allocated => true,
            InstanceLifecycle::ActiveCombat => {
                if self.elapsed_ticks > COMBAT_TIMEOUT_TICKS {
                    self.state = InstanceLifecycle::PendingCleanup;
                }
                true
            },
            InstanceLifecycle::VictoryReward => {
                if self.elapsed_ticks >= self.victory_tick && self.elapsed_ticks - self.victory_tick
                    > ROOM_CLEANUP_TIMEOUT_TICKS {
                    self.state = InstanceLifecycle::PendingCleanup;
                }
                true
            },
            InstanceLifecycle::PendingCleanup => false,
        }
    }
}

/// Slot holds the room `id`.
pub open spec fn holds_room(id: InstanceId) -> spec_fn(Option<DungeonInstance>) -> bool {
    |s: Option<DungeonInstance>| s matches Some(room) && room.id == id
}

/// Slot is free.
pub open spec fn free_room() -> spec_fn(Option<DungeonInstance>) -> bool {
    |s: Option<DungeonInstance>| s is None
}

/// Pre-allocated pool of ephemeral dungeon rooms.
pub struct DungeonPool<const MAX_ROOMS: usize> {
    rooms: Vec<Option<DungeonInstance>>,
    next_id: u64,
    active_count: usize,
    ids_wrapped: Ghost<bool>,
}

impl<const MAX_ROOMS: usize> DungeonPool<MAX_ROOMS> {
    /// Room slots.
    pub closed spec fn spec_rooms(&self) -> Seq<Option<DungeonInstance>> {
        self.rooms@
    }

    /// Identifier the next allocated room receives.
    pub closed spec fn spec_next_id(&self) -> u64 {
        self.next_id
    }

    /// Reported number of active rooms.
    pub closed spec fn spec_active_count(&self) -> nat {
        self.active_count as nat
    }

    /// Whether the identifier counter has wrapped past `u64::MAX` (after that many allocations).
    pub closed spec fn spec_ids_wrapped(&self) -> bool {
        self.ids_wrapped@
    }

    /// There are exactly `MAX_ROOMS` slots, the active count matches the occupied ones, and,
    /// until the identifier counter wraps, every room's identifier is distinct and below the
    /// next one to be issued.
    pub open spec fn wf(&self) -> bool {
        &&& self.spec_rooms().len() == MAX_ROOMS
        &&& self.spec_active_count() == count_some(self.spec_rooms())
        &&& !self.spec_ids_wrapped() ==> ids_fresh(self.spec_rooms(), self.spec_next_id())
    }

    /// Creates a pool of `MAX_ROOMS` empty slots; room ids start at 1.
    pub fn new() -> (p: Self)
        ensures
            p.wf(),
            p.spec_rooms() == Seq::new(MAX_ROOMS as nat, |i: int| None::<DungeonInstance>),
            p.spec_next_id() == 1,
            !p.spec_ids_wrapped(),
    {
        let mut rooms: Vec<Option<DungeonInstance>> = Vec::new();
        let mut i: usize = 0;
        while i < MAX_ROOMS
            invariant
                i <= MAX_ROOMS,
                rooms@ == Seq::new(i as nat, |j: int| None::<DungeonInstance>),
            decreases MAX_ROOMS - i,
        {
            rooms.push(None);
            i = i + 1;
            assert(rooms@ =~= Seq::new(i as nat, |j: int| None::<DungeonInstance>));
        }
        proof {
            lemma_count_some_bound(rooms@);
        }
        DungeonPool { rooms, next_id: 1, active_count: 0, ids_wrapped: Ghost(false) }
    }

    /// Claims the first free slot for a new room with id `next_id` (then `next_id` wraps forward).
    #[verifier::loop_isolation(false)]
    pub fn allocate_instance(&mut self, boss_max_health: u32) -> (r: Result<InstanceId, WorldError>)
        requires
            old(self).wf(),
        ensures
            final(self).wf(),
            ({
                let f = first_index(old(self).spec_rooms(), free_room());
                if f < 0 {
                    r == Err::<InstanceId, WorldError>(WorldError::InstancePoolExhausted)
                        && final(self).spec_rooms() == old(self).spec_rooms()
                        && final(self).spec_next_id() == old(self).spec_next_id()
                } else {
                    let id = InstanceId(old(self).spec_next_id());
                    &&& r == Ok::<InstanceId, WorldError>(id)
                    &&& final(self).spec_rooms().len() == old(self).spec_rooms().len()
                    &&& final(self).spec_rooms() == old(self).spec_rooms().update(f, final(self).spec_rooms()[f])
                    &&& final(self).spec_rooms()[f] matches Some(room) && room.id == id && room.state
                        == InstanceLifecycle::Allocated && room.party_count == 0 && room.elapsed_ticks == 0
                        && room.boss_health == boss_max_health && room.boss_max_health == boss_max_health
                        && room.party_members@ == seq![None::<u32>, None, None, None]
                    &&& final(self).spec_next_id() == (if old(self).spec_next_id() == u64::MAX {
                        0
                    } else {
                        (old(self).spec_next_id() + 1) as u64
                    })
                    &&& final(self).spec_ids_wrapped() == (old(self).spec_ids_wrapped()
                        || old(self).spec_next_id() == u64::MAX)
                }
            }),
            first_index(old(self).spec_rooms(), free_room()) < 0 ==> final(self).spec_ids_wrapped()
                == old(self).spec_ids_wrapped(),
            r is Ok ==> final(self).spec_active_count() == old(self).spec_active_count() + 1,
            r is Ok && !final(self).spec_ids_wrapped() ==> first_index(
                final(self).spec_rooms(),
                holds_room(r->Ok_0),
            ) == first_index(old(self).spec_rooms(), free_room()),
    {
        let ghost s = self.rooms@;
        let ghost q = free_room();
        let mut i: usize = 0;
        while i < self.rooms.len()
            invariant
                i <= s.len(),
                s == self.rooms@,
                *self == *old(self),
                forall|j: int| 0 <= j < i ==> !q(#[trigger] s[j]),
            decreases s.len() - i,
        {
            if self.rooms[i].is_none() {
                proof {
                    lemma_first_index_is(s, q, i as int);
                    lemma_count_some_bound(s);
                    if count_some(s) == s.len() {
                        assert(s[i as int] is Some);
                    }
                }
                let id = InstanceId(self.next_id);
                let ghost next0 = self.next_id;
                self.next_id = self.next_id.wrapping_add(1);
                let room = DungeonInstance::new(id, boss_max_health);
                self.rooms.set(i, Some(room));
                proof {
                    lemma_count_some_update(s, i as int, Some(room));
                    if next0 == u64::MAX {
                        self.ids_wrapped = Ghost(true);
                    } else if !self.ids_wrapped@ {
                        lemma_allocation_ids_fresh(s, next0, i as int, room);
                    }
                }
                self.active_count = self.active_count + 1;
                assert(self.rooms@ =~= s.update(i as int, self.rooms@[i as int]));
                return Ok(id);
            }
            i = i + 1;
        }
        proof {
            lemma_first_index_none(s, q);
        }
        Err(WorldError::InstancePoolExhausted)
    }

    /// Returns the active room with identifier `id` (the first such slot), if any.
    #[verifier::loop_isolation(false)]
    pub fn get_instance(&self, id: InstanceId) -> (r: Option<&DungeonInstance>)
        ensures
            ({
                let k = first_index(self.spec_rooms(), holds_room(id));
                &&& (r is Some <==> k >= 0)
                &&& r is Some ==> Some(*r->0) == self.spec_rooms()[k]
            }),
    {
        let ghost s = self.rooms@;
        let ghost p = holds_room(id);
        let mut i: usize = 0;
        while i < self.rooms.len()
            invariant
                i <= s.len(),
                s == self.rooms@,
                forall|j: int| 0 <= j < i ==> !p(#[trigger] s[j]),
            decreases s.len() - i,
        {
            match &self.rooms[i] {
                Some(room) => {
                    if room.id == id {
                        proof {
                            lemma_first_index_is(s, p, i as int);
                        }
                        return Some(room);
                    }
                },
                None => {},
            }
            i = i + 1;
        }
        proof {
            lemma_first_index_none(s, p);
        }
        None
    }

    /// Returns a mutable handle to the active room with identifier `id` (the first such slot), if any.
    #[verifier::loop_isolation(false)]
    pub fn get_instance_mut(&mut self, id: InstanceId) -> (r: Option<&mut DungeonInstance>)
        ensures
            ({
                let k = first_index(old(self).spec_rooms(), holds_room(id));
                &&& (r is Some <==> k >= 0)
                &&& k < 0 ==> final(self).spec_rooms() == old(self).spec_rooms()
                &&& k >= 0 ==> Some(*r->0) == old(self).spec_rooms()[k]
                &&& k >= 0 ==> final(self).spec_rooms() == old(self).spec_rooms().update(k, Some(*final(r->0)))
            }),
            final(self).spec_next_id() == old(self).spec_next_id(),
            final(self).spec_active_count() == old(self).spec_active_count(),
            final(self).spec_ids_wrapped() == old(self).spec_ids_wrapped(),
    {
        let ghost s = self.rooms@;
        let ghost p = holds_room(id);
        let mut i: usize = 0;
        let mut found: bool = false;
        while i < self.rooms.len()
            invariant
                i <= s.len(),
                s == self.rooms@,
                forall|j: int| 0 <= j < i ==> !p(#[trigger] s[j]),
                *self == *old(self),
                !found,
            decreases s.len() - i,
        {
            if let Some(room) = &self.rooms[i] {
                if room.id == id {
                    proof {
                        lemma_first_index_is(s, p, i as int);
                    }
                    found = true;
                    break;
                }
            }
            i = i + 1;
        }
        if !found {
            proof {
                lemma_first_index_none(s, p);
            }
            return None;
        }
        match &mut self.rooms[i] {
            Some(room) => Some(room),
            None => None,
        }
    }

    /// Frees the first slot holding room `id`.
    #[verifier::loop_isolation(false)]
    pub fn deallocate_instance(&mut self, id: InstanceId) -> (r: Result<(), WorldError>)
        requires
            old(self).wf(),
        ensures
            final(self).wf(),
            final(self).spec_next_id() == old(self).spec_next_id(),
            final(self).spec_ids_wrapped() == old(self).spec_ids_wrapped(),
            ({
                let k = first_index(old(self).spec_rooms(), holds_room(id));
                if k < 0 {
                    r == Err::<(), WorldError>(WorldError::InstanceNotFound(id)) && final(self).spec_rooms()
                        == old(self).spec_rooms()
                } else {
                    r is Ok && final(self).spec_rooms() == old(self).spec_rooms().update(k, None)
                }
            }),
    {
        let ghost s = self.rooms@;
        let ghost p = holds_room(id);
        let mut i: usize = 0;
        while i < self.rooms.len()
            invariant
                i <= s.len(),
                s == self.rooms@,
                *self == *old(self),
                forall|j: int| 0 <= j < i ==> !p(#[trigger] s[j]),
            decreases s.len() - i,
        {
            let is_match = match &self.rooms[i] {
                Some(room) => room.id == id,
                None => false,
            };
            if is_match {
                proof {
                    lemma_first_index_is(s, p, i as int);
                    lemma_count_some_update(s, i as int, None);
                }
                self.rooms.set(i, None);
                self.active_count = self.active_count.saturating_sub(1);
                proof {
                    if !self.ids_wrapped@ {
                        lemma_release_keeps_ids_fresh(s, self.rooms@, self.next_id);
                    }
                }
                return Ok(());
            }
            i = i + 1;
        }
        proof {
            lemma_first_index_none(s, p);
        }
        Err(WorldError::InstanceNotFound(id))
    }

    /// Returns the number of currently active dungeon rooms.
    pub fn active_room_count(&self) -> (n: usize)
        ensures
            n == self.spec_active_count(),
    {
        self.active_count
    }

    /// Ticks every room and frees those that were already awaiting cleanup.
    #[verifier::loop_isolation(false)]
    pub fn tick_all(&mut self)
        requires
            old(self).wf(),
        ensures
            final(self).wf(),
            final(self).spec_next_id() == old(self).spec_next_id(),
            final(self).spec_ids_wrapped() == old(self).spec_ids_wrapped(),
            final(self).spec_rooms().len() == old(self).spec_rooms().len(),
            forall|j: int|
                0 <= j < old(self).spec_rooms().len() ==> #[trigger] final(self).spec_rooms()[j]
                    == match old(self).spec_rooms()[j] {
                    Some(room) => if spec_tick(room).1 {
                        Some(spec_tick(room).0)
                    } else {
                        None
                    },
                    None => None,
                },
    {
        let ghost s = self.rooms@;
        let mut i: usize = 0;
        while i < self.rooms.len()
            invariant
                i <= s.len(),
                self.rooms@.len() == s.len(),
                self.active_count == count_some(self.rooms@),
                self.next_id == old(self).next_id,
                self.ids_wrapped == old(self).ids_wrapped,
                forall|j: int| i <= j < s.len() ==> #[trigger] self.rooms@[j] == s[j],
                forall|j: int|
                    0 <= j < i ==> #[trigger] self.rooms@[j] == match s[j] {
                        Some(room) => if spec_tick(room).1 {
                            Some(spec_tick(room).0)
                        } else {
                            None
                        },
                        None => None,
                    },
            decreases s.len() - i,
        {
            if let Some(room) = self.rooms[i] {
                let mut r = room;
                let alive = r.tick();
                if alive {
                    proof {
                        lemma_count_some_update(self.rooms@, i as int, Some(r));
                    }
                    self.rooms.set(i, Some(r));
                } else {
                    proof {
                        lemma_count_some_update(self.rooms@, i as int, None);
                    }
                    self.rooms.set(i, None);
                    self.active_count = self.active_count - 1;
                }
            }
            i = i + 1;
        }
        proof {
            if !self.ids_wrapped@ {
                assert forall|j: int| 0 <= j < s.len() implies (#[trigger] self.rooms@[j]) is None || (s[j] is Some
                    && self.rooms@[j]->0.id == s[j]->0.id) by {
                    if let Some(room) = s[j] {
                        lemma_tick_keeps_id(room);
                    }
                }
                lemma_release_keeps_ids_fresh(s, self.rooms@, self.next_id);
            }
        }
    }
}

proof fn lemma_tick_keeps_id(d: DungeonInstance)
    ensures
        spec_tick(d).0.id == d.id,
{
}

/// Rooms run forward through the lifecycle: a room never returns to `Allocated`, a room
/// awaiting cleanup stays so, and a tick reports a room dead exactly when it was awaiting cleanup.
pub proof fn lemma_tick_lifecycle_is_monotone(d: DungeonInstance)
    ensures
        !(d.state is Allocated) ==> !(spec_tick(d).0.state is Allocated),
        d.state is PendingCleanup ==> spec_tick(d).0.state is PendingCleanup && !spec_tick(d).1,
        !(d.state is PendingCleanup) ==> spec_tick(d).1,
        d.state is VictoryReward ==> spec_tick(d).0.state is VictoryReward || spec_tick(
            d,
        ).0.state is PendingCleanup,
{
}

/// Loot grace: a cleared room stays alive in `VictoryReward` for 1200 ticks (60 s) counted from
/// the boss's defeat, and awaits cleanup from the tick after that.
pub proof fn lemma_victory_grace_window(d: DungeonInstance)
    requires
        d.state is VictoryReward,
        d.victory_tick <= d.elapsed_ticks < u32::MAX,
    ensures
        spec_tick(d).1,
        spec_tick(d).0.elapsed_ticks == d.elapsed_ticks + 1,
        d.elapsed_ticks + 1 <= d.victory_tick + ROOM_CLEANUP_TIMEOUT_TICKS ==> spec_tick(
            d,
        ).0.state is VictoryReward,
        d.elapsed_ticks + 1 > d.victory_tick + ROOM_CLEANUP_TIMEOUT_TICKS ==> spec_tick(
            d,
        ).0.state is PendingCleanup,
{
}

/// Every room's identifier is below `next` and no two rooms share one.
pub open spec fn ids_fresh(rooms: Seq<Option<DungeonInstance>>, next: u64) -> bool {
    &&& forall|i: int| 0 <= i < rooms.len() && (#[trigger] rooms[i]) is Some ==> rooms[i]->0.id.0 < next
    &&& forall|i: int, j: int|
        0 <= i < j < rooms.len() && (#[trigger] rooms[i]) is Some && (#[trigger] rooms[j]) is Some
            ==> rooms[i]->0.id != rooms[j]->0.id
}

/// In a well-formed pool whose identifier counter has not wrapped, every room's identifier is
/// distinct and below the next identifier to be issued, so a newly issued identifier differs
/// from every active room's.
pub proof fn lemma_pool_ids_distinct<const MAX_ROOMS: usize>(p: DungeonPool<MAX_ROOMS>)
    requires
        p.wf(),
        !p.spec_ids_wrapped(),
    ensures
        ids_fresh(p.spec_rooms(), p.spec_next_id()),
        forall|i: int|
            0 <= i < p.spec_rooms().len() && (#[trigger] p.spec_rooms()[i]) is Some ==> p.spec_rooms()[i]->0.id
                != InstanceId(p.spec_next_id()),
{
}

/// Issued identifiers are distinct and findable: placing a room with the next identifier in a
/// free slot (as `allocate_instance` does, before the identifier wraps) keeps all identifiers
/// distinct and below the advanced counter, and a lookup of the new identifier finds that slot.
pub proof fn lemma_allocation_ids_fresh(
    rooms: Seq<Option<DungeonInstance>>,
    next: u64,
    f: int,
    room: DungeonInstance,
)
    requires
        ids_fresh(rooms, next),
        next < u64::MAX,
        0 <= f < rooms.len(),
        rooms[f] is None,
        room.id == InstanceId(next),
    ensures
        ids_fresh(rooms.update(f, Some(room)), (next + 1) as u64),
        first_index(rooms.update(f, Some(room)), holds_room(room.id)) == f,
{
    let t = rooms.update(f, Some(room));
    assert forall|j: int| 0 <= j < f implies !holds_room(room.id)(#[trigger] t[j]) by {
        if t[j] is Some {
            assert(rooms[j]->0.id.0 < next);
        }
    }
    lemma_first_index_is(t, holds_room(room.id), f);
}

/// Releasing rooms, or replacing a room by one with the same identifier (as
/// `deallocate_instance` and `tick_all` do), keeps identifiers distinct and below the counter.
pub proof fn lemma_release_keeps_ids_fresh(
    rooms: Seq<Option<DungeonInstance>>,
    after: Seq<Option<DungeonInstance>>,
    next: u64,
)
    requires
        ids_fresh(rooms, next),
        after.len() == rooms.len(),
        forall|i: int|
            0 <= i < rooms.len() ==> (#[trigger] after[i]) is None || (rooms[i] is Some
                && after[i]->0.id == rooms[i]->0.id),
    ensures
        ids_fresh(after, next),
{
    assert forall|i: int| 0 <= i < after.len() && (#[trigger] after[i]) is Some implies after[i]->0.id.0
        < next by {
        assert(rooms[i] is Some);
    }
    assert forall|i: int, j: int|
        0 <= i < j < after.len() && (#[trigger] after[i]) is Some && (#[trigger] after[j]) is Some
            implies after[i]->0.id != after[j]->0.id by {
        assert(rooms[i] is Some && rooms[j] is Some);
    }
}

} // verus!
