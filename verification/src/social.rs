//! Guild rank hierarchies with permission bitmasks, alliances, and diplomatic standings.
use vstd::prelude::*;
use std::collections::HashMap;

use crate::slots::{first_index, lemma_first_index, lemma_first_index_is, lemma_first_index_none};

verus! {

broadcast use vstd::std_specs::hash::group_hash_axioms;

/// Maximum allowable guild members.
pub const MAX_GUILD_MEMBERS: usize = 500;
/// Maximum name length in bytes.
pub const MAX_NAME_LEN: usize = 32;
/// Maximum guild tag length in bytes.
pub const MAX_TAG_LEN: usize = 6;

/// Permission to invite new recruits to the guild.
pub const GUILD_PERM_INVITE: u32 = 1;
/// Permission to kick lower-ranked members from the guild.
pub const GUILD_PERM_KICK: u32 = 2;
/// Permission to promote lower-ranked members.
pub const GUILD_PERM_PROMOTE: u32 = 4;
/// Permission to demote lower-ranked members.
pub const GUILD_PERM_DEMOTE: u32 = 8;
/// Permission to deposit items and currency into the guild vault.
pub const GUILD_PERM_VAULT_DEPOSIT: u32 = 16;
/// Permission to withdraw items and currency from the guild vault.
pub const GUILD_PERM_VAULT_WITHDRAW: u32 = 32;
/// Permission to claim world territory plots in the guild's name.
pub const GUILD_PERM_CLAIM_TERRITORY: u32 = 64;
/// Permission to adjust diplomatic relations with other guilds.
pub const GUILD_PERM_MANAGE_DIPLOMACY: u32 = 128;
/// Permission to configure rank permissions.
pub const GUILD_PERM_EDIT_RANKS: u32 = 256;

/// Rank of a guild master.
pub const GUILD_MASTER_RANK: u8 = 7;

/// Errors arising from social graph operations.
#[derive(Debug, Clone, Copy, PartialEq, Eq, Structural)]
pub enum SocialError {
    /// Guild already exists with this ID.
    GuildAlreadyExists,
    /// Guild not found.
    GuildNotFound,
    /// Player is already in a guild.
    PlayerAlreadyInGuild,
    /// Player not found in guild roster.
    PlayerNotInGuild,
    /// Guild member limit reached.
    GuildFull,
    /// Insufficient rank permissions for action.
    PermissionDenied,
    /// Cannot kick or demote the guild master.
    CannotModifyGuildMaster,
    /// Target rank index is out of bounds (0-7).
    InvalidRank,
    /// Alliance not found.
    AllianceNotFound,
    /// Guild is already in an alliance.
    GuildAlreadyInAlliance,
}

/// Diplomatic standing status.
#[derive(Debug, Clone, Copy, PartialEq, Eq, Structural)]
pub enum DiplomaticStatus {
    /// Score <= -6,000.
    AtWar,
    /// Score in -5,999 ..= -2,000.
    Hostile,
    /// Score in -1,999 ..= +1,999.
    Neutral,
    /// Score in +2,000 ..= +5,999.
    Friendly,
    /// Score >= +6,000.
    Allied,
}

/// A member of a guild.
#[derive(Debug, Clone, Copy, PartialEq, Eq, Structural)]
pub struct GuildMember {
    /// Member account ID.
    pub account_id: u64,
    /// Primary character ID.
    pub character_id: u64,
    /// Rank tier: 0 = Recruit, up to 7 = Guild Master.
    pub rank: u8,
    /// Tick timestamp when player joined.
    pub joined_tick: u64,
}

/// Default permission bitmask of each rank, from recruit (0) to master (7).
pub open spec fn default_rank_permissions() -> Seq<u32> {
    seq![
        0u32,
        16u32,
        48u32,
        51u32,
        63u32,
        127u32,
        255u32,
        u32::MAX,
    ]
}

/// Guild institution managing members, ranks, and permissions.
#[derive(Debug)]
pub struct Guild {
    /// Unique guild ID.
    pub guild_id: u64,
    /// Guild name string.
    pub name: String,
    /// Short guild tag.
    pub tag: String,
    /// Account ID of the guild master.
    pub master_account_id: u64,
    /// Roster of active members keyed by account ID.
    pub members: HashMap<u64, GuildMember>,
    /// Permission bitmasks for each of the 8 ranks (0 = Recruit, 7 = Master).
    pub rank_permissions: [u32; 8],
    /// Parent alliance ID if part of an alliance.
    pub alliance_id: Option<u64>,
}

impl Guild {
    /// Whether `account_id` holds every bit of `permission`: the master always does, other
    /// members by their rank's mask, strangers never.
    pub open spec fn spec_has_permission(&self, account_id: u64, permission: u32) -> bool {
        if account_id == self.master_account_id {
            true
        } else if self.members@.contains_key(account_id) {
            (self.rank_permissions@[self.members@[account_id].rank as int] & permission) == permission
        } else {
            false
        }
    }

    /// Every rostered member has a rank within 0..=7.
    pub open spec fn ranks_valid(&self) -> bool {
        forall|a: u64| #[trigger] self.members@.contains_key(a) ==> self.members@[a].rank < 8
    }

    /// Creates a guild whose only member is its master (rank 7) with the default rank masks.
    pub fn new(
        guild_id: u64,
        name: &str,
        tag: &str,
        master_account_id: u64,
        master_character_id: u64,
        current_tick: u64,
    ) -> (g: Self)
        ensures
            g.guild_id == guild_id,
            g.name@ == name@,
            g.tag@ == tag@,
            g.master_account_id == master_account_id,
            g.members@ == Map::<u64, GuildMember>::empty().insert(
                master_account_id,
                GuildMember {
                    account_id: master_account_id,
                    character_id: master_character_id,
                    rank: GUILD_MASTER_RANK,
                    joined_tick: current_tick,
                },
            ),
            g.rank_permissions@ == default_rank_permissions(),
            g.alliance_id is None,
            g.ranks_valid(),
    {
        let mut members: HashMap<u64, GuildMember> = HashMap::new();
        members.insert(
            master_account_id,
            GuildMember {
                account_id: master_account_id,
                character_id: master_character_id,
                rank: GUILD_MASTER_RANK,
                joined_tick: current_tick,
            },
        );
        let mut rank_permissions = [0u32; 8];
        rank_permissions[0] = 0;
        rank_permissions[1] = GUILD_PERM_VAULT_DEPOSIT;
        rank_permissions[2] = GUILD_PERM_VAULT_DEPOSIT | GUILD_PERM_VAULT_WITHDRAW;
        rank_permissions[3] = rank_permissions[2] | GUILD_PERM_INVITE | GUILD_PERM_KICK;
        rank_permissions[4] = rank_permissions[3] | GUILD_PERM_PROMOTE | GUILD_PERM_DEMOTE;
        rank_permissions[5] = rank_permissions[4] | GUILD_PERM_CLAIM_TERRITORY;
        rank_permissions[6] = rank_permissions[5] | GUILD_PERM_MANAGE_DIPLOMACY;
        rank_permissions[7] = u32::MAX;
        assert(16u32 | 32u32 == 48u32) by (bit_vector);
        assert(48u32 | 1u32 | 2u32 == 51u32) by (bit_vector);
        assert(51u32 | 4u32 | 8u32 == 63u32) by (bit_vector);
        assert(63u32 | 64u32 == 127u32) by (bit_vector);
        assert(127u32 | 128u32 == 255u32) by (bit_vector);
        assert(rank_permissions@ =~= default_rank_permissions());
        Guild {
            guild_id,
            name: name.to_owned(),
            tag: tag.to_owned(),
            master_account_id,
            members,
            rank_permissions,
            alliance_id: None,
        }
    }

    /// Checks if a member possesses every bit of `permission`.
    pub fn has_permission(&self, account_id: u64, permission: u32) -> (b: bool)
        requires
            self.members@.contains_key(account_id) ==> self.members@[account_id].rank < 8,
        ensures
            b == self.spec_has_permission(account_id, permission),
    {
        if account_id == self.master_account_id {
            return true;
        }
        match self.members.get(&account_id) {
            Some(member) => {
                let perms = self.rank_permissions[member.rank as usize];
                (perms & permission) == permission
            },
            None => false,
        }
    }

    /// Adds a new recruit at rank 0.
    pub fn add_member(&mut self, account_id: u64, character_id: u64, current_tick: u64) -> (r:
        Result<(), SocialError>)
        ensures
            final(self).guild_id == old(self).guild_id,
            final(self).master_account_id == old(self).master_account_id,
            final(self).rank_permissions == old(self).rank_permissions,
            final(self).alliance_id == old(self).alliance_id,
            old(self).members@.len() >= MAX_GUILD_MEMBERS ==> r == Err::<(), SocialError>(
                SocialError::GuildFull,
            ) && final(self).members@ == old(self).members@,
            old(self).members@.len() < MAX_GUILD_MEMBERS && old(self).members@.contains_key(account_id)
                ==> r == Err::<(), SocialError>(SocialError::PlayerAlreadyInGuild) && final(self).members@ == old(self).members@,
            old(self).members@.len() < MAX_GUILD_MEMBERS && !old(self).members@.contains_key(account_id)
                ==> r is Ok && final(self).members@ == old(self).members@.insert(
                account_id,
                GuildMember { account_id, character_id, rank: 0, joined_tick: current_tick },
            ),
            old(self).ranks_valid() ==> final(self).ranks_valid(),
    {
        if self.members.len() >= MAX_GUILD_MEMBERS {
            return Err(SocialError::GuildFull);
        }
        if self.members.contains_key(&account_id) {
            return Err(SocialError::PlayerAlreadyInGuild);
        }
        self.members.insert(
            account_id,
            GuildMember { account_id, character_id, rank: 0, joined_tick: current_tick },
        );
        Ok(())
    }

    /// Removes a member (never the master), returning its roster record.
    pub fn remove_member(&mut self, account_id: u64) -> (r: Result<GuildMember, SocialError>)
        ensures
            final(self).guild_id == old(self).guild_id,
            final(self).master_account_id == old(self).master_account_id,
            final(self).rank_permissions == old(self).rank_permissions,
            final(self).alliance_id == old(self).alliance_id,
            account_id == old(self).master_account_id ==> r == Err::<GuildMember, SocialError>(
                SocialError::CannotModifyGuildMaster,
            ) && final(self).members@ == old(self).members@,
            account_id != old(self).master_account_id && !old(self).members@.contains_key(account_id)
                ==> r == Err::<GuildMember, SocialError>(SocialError::PlayerNotInGuild) && final(self).members@ == old(self).members@,
            account_id != old(self).master_account_id && old(self).members@.contains_key(account_id)
                ==> r == Ok::<GuildMember, SocialError>(old(self).members@[account_id]) && final(self).members@ == old(self).members@.remove(account_id),
            old(self).ranks_valid() ==> final(self).ranks_valid(),
    {
        if account_id == self.master_account_id {
            return Err(SocialError::CannotModifyGuildMaster);
        }
        match self.members.remove(&account_id) {
            Some(m) => Ok(m),
            None => Err(SocialError::PlayerNotInGuild),
        }
    }

    /// Sets `target`'s rank; the actor must be a member of strictly higher rank than `new_rank`.
    pub fn set_rank(&mut self, actor_account_id: u64, target_account_id: u64, new_rank: u8) -> (r:
        Result<(), SocialError>)
        ensures
            final(self).guild_id == old(self).guild_id,
            final(self).master_account_id == old(self).master_account_id,
            final(self).rank_permissions == old(self).rank_permissions,
            final(self).alliance_id == old(self).alliance_id,
            r == (if new_rank > 7 {
                Err(SocialError::InvalidRank)
            } else if target_account_id == old(self).master_account_id {
                Err(SocialError::CannotModifyGuildMaster)
            } else if !old(self).members@.contains_key(actor_account_id) {
                Err(SocialError::PlayerNotInGuild)
            } else if old(self).members@[actor_account_id].rank <= new_rank {
                Err(SocialError::PermissionDenied)
            } else if !old(self).members@.contains_key(target_account_id) {
                Err(SocialError::PlayerNotInGuild)
            } else {
                Ok(())
            }),
            r is Err ==> final(self).members@ == old(self).members@,
            r is Ok ==> final(self).members@ == old(self).members@.insert(
                target_account_id,
                GuildMember { rank: new_rank, ..old(self).members@[target_account_id] },
            ),
            old(self).ranks_valid() ==> final(self).ranks_valid(),
    {
        if new_rank > 7 {
            return Err(SocialError::InvalidRank);
        }
        if target_account_id == self.master_account_id {
            return Err(SocialError::CannotModifyGuildMaster);
        }
        let actor_rank = match self.members.get(&actor_account_id) {
            Some(m) => m.rank,
            None => {
                return Err(SocialError::PlayerNotInGuild);
            },
        };
        if actor_rank <= new_rank {
            return Err(SocialError::PermissionDenied);
        }
        let member = match self.members.get(&target_account_id) {
            Some(m) => *m,
            None => {
                return Err(SocialError::PlayerNotInGuild);
            },
        };
        self.members.insert(target_account_id, GuildMember { rank: new_rank, ..member });
        Ok(())
    }
}

/// Multi-guild alliance coalition.
#[derive(Debug)]
pub struct Alliance {
    /// Unique alliance ID.
    pub alliance_id: u64,
    /// Alliance name.
    pub name: String,
    /// Founding leader guild ID.
    pub leader_guild_id: u64,
    /// Member guild IDs.
    pub member_guild_ids: Vec<u64>,
}

impl Alliance {
    /// Creates a new alliance whose only member is its leader guild.
    pub fn new(alliance_id: u64, name: &str, leader_guild_id: u64) -> (a: Self)
        ensures
            a.alliance_id == alliance_id,
            a.name@ == name@,
            a.leader_guild_id == leader_guild_id,
            a.member_guild_ids@ == seq![leader_guild_id],
    {
        let mut member_guild_ids: Vec<u64> = Vec::new();
        member_guild_ids.push(leader_guild_id);
        Alliance { alliance_id, name: name.to_owned(), leader_guild_id, member_guild_ids }
    }

    /// Checks if a guild is in this alliance.
    pub fn contains_guild(&self, guild_id: u64) -> (b: bool)
        ensures
            b == self.member_guild_ids@.contains(guild_id),
    {
        let mut i: usize = 0;
        while i < self.member_guild_ids.len()
            invariant
                i <= self.member_guild_ids@.len(),
                forall|j: int| 0 <= j < i ==> self.member_guild_ids@[j] != guild_id,
            decreases self.member_guild_ids@.len() - i,
        {
            if self.member_guild_ids[i] == guild_id {
                return true;
            }
            i = i + 1;
        }
        false
    }

    /// Adds a guild that is not yet a member.
    pub fn add_guild(&mut self, guild_id: u64) -> (r: Result<(), SocialError>)
        ensures
            final(self).alliance_id == old(self).alliance_id,
            final(self).leader_guild_id == old(self).leader_guild_id,
            old(self).member_guild_ids@.contains(guild_id) ==> r == Err::<(), SocialError>(
                SocialError::GuildAlreadyInAlliance,
            ) && final(self).member_guild_ids@ == old(self).member_guild_ids@,
            !old(self).member_guild_ids@.contains(guild_id) ==> r is Ok && final(self).member_guild_ids@ == old(self).member_guild_ids@.push(guild_id),
    {
        if self.contains_guild(guild_id) {
            return Err(SocialError::GuildAlreadyInAlliance);
        }
        self.member_guild_ids.push(guild_id);
        Ok(())
    }

    /// Removes the first occurrence of a member guild (never the leader).
    pub fn remove_guild(&mut self, guild_id: u64) -> (r: Result<(), SocialError>)
        ensures
            final(self).alliance_id == old(self).alliance_id,
            final(self).leader_guild_id == old(self).leader_guild_id,
            guild_id == old(self).leader_guild_id ==> r == Err::<(), SocialError>(
                SocialError::CannotModifyGuildMaster,
            ) && final(self).member_guild_ids@ == old(self).member_guild_ids@,
            guild_id != old(self).leader_guild_id && !old(self).member_guild_ids@.contains(guild_id)
                ==> r == Err::<(), SocialError>(SocialError::GuildNotFound) && final(self).member_guild_ids@ == old(self).member_guild_ids@,
            guild_id != old(self).leader_guild_id && old(self).member_guild_ids@.contains(guild_id)
                ==> r is Ok && ({
                let k = first_index(old(self).member_guild_ids@, |g: u64| g == guild_id);
                final(self).member_guild_ids@ == old(self).member_guild_ids@.remove(k)
            }),
    {
        if guild_id == self.leader_guild_id {
            return Err(SocialError::CannotModifyGuildMaster);
        }
        let ghost s = self.member_guild_ids@;
        let ghost p = |g: u64| g == guild_id;
        let mut i: usize = 0;
        while i < self.member_guild_ids.len()
            invariant
                i <= s.len(),
                s == self.member_guild_ids@,
                s == old(self).member_guild_ids@,
                self.alliance_id == old(self).alliance_id,
                self.leader_guild_id == old(self).leader_guild_id,
                p == (|g: u64| g == guild_id),
                guild_id != self.leader_guild_id,
                forall|j: int| 0 <= j < i ==> !p(#[trigger] s[j]),
            decreases s.len() - i,
        {
            if self.member_guild_ids[i] == guild_id {
                proof {
                    lemma_first_index_is(s, p, i as int);
                }
                self.member_guild_ids.remove(i);
                return Ok(());
            }
            i = i + 1;
        }
        assert(!s.contains(guild_id)) by {
            if s.contains(guild_id) {
                let j = choose|j: int| 0 <= j < s.len() && s[j] == guild_id;
                assert(!p(s[j]));
            }
        }
        Err(SocialError::GuildNotFound)
    }
}

/// `score` clamped into -10,000 ..= 10,000.
pub open spec fn clamp_standing(score: i32) -> i32 {
    if score < -10_000 { -10_000i32 } else if score > 10_000 { 10_000i32 } else { score }
}

/// Standing map recorded by a list of `(source, target, score)` entries (later entries win).
pub open spec fn standings_map(s: Seq<(u64, u64, i32)>) -> Map<(u64, u64), i32>
    decreases s.len(),
{
    if s.len() == 0 {
        Map::empty()
    } else {
        standings_map(s.drop_last()).insert((s.last().0, s.last().1), s.last().2)
    }
}

/// No pair appears twice.
pub open spec fn pairs_distinct(s: Seq<(u64, u64, i32)>) -> bool {
    forall|i: int, j: int|
        0 <= i < j < s.len() ==> ((#[trigger] s[i]).0, s[i].1) != ((#[trigger] s[j]).0, s[j].1)
}

/// Score classification into diplomatic status bands.
pub open spec fn status_of(score: i32) -> DiplomaticStatus {
    if score <= -6000 {
        DiplomaticStatus::AtWar
    } else if score <= -2000 {
        DiplomaticStatus::Hostile
    } else if score < 2000 {
        DiplomaticStatus::Neutral
    } else if score < 6000 {
        DiplomaticStatus::Friendly
    } else {
        DiplomaticStatus::Allied
    }
}

proof fn lemma_standings_map_dom(s: Seq<(u64, u64, i32)>, k: (u64, u64))
    ensures
        standings_map(s).contains_key(k) <==> exists|i: int|
            0 <= i < s.len() && (#[trigger] s[i]).0 == k.0 && s[i].1 == k.1,
    decreases s.len(),
{
    if s.len() > 0 {
        lemma_standings_map_dom(s.drop_last(), k);
        if exists|i: int| 0 <= i < s.len() - 1 && (#[trigger] s.drop_last()[i]).0 == k.0 && s.drop_last()[i].1 == k.1 {
            let i = choose|i: int| 0 <= i < s.len() - 1 && (#[trigger] s.drop_last()[i]).0 == k.0 && s.drop_last()[i].1 == k.1;
            assert(s[i] == s.drop_last()[i]);
        }
        if exists|i: int| 0 <= i < s.len() && (#[trigger] s[i]).0 == k.0 && s[i].1 == k.1 {
            let i = choose|i: int| 0 <= i < s.len() && (#[trigger] s[i]).0 == k.0 && s[i].1 == k.1;
            if i < s.len() - 1 {
                assert(s[i] == s.drop_last()[i]);
            }
        }
    }
}

proof fn lemma_standings_map_at(s: Seq<(u64, u64, i32)>, k: int)
    requires
        pairs_distinct(s),
        0 <= k < s.len(),
    ensures
        standings_map(s).contains_key((s[k].0, s[k].1)),
        standings_map(s)[(s[k].0, s[k].1)] == s[k].2,
    decreases s.len(),
{
    if k < s.len() - 1 {
        assert(pairs_distinct(s.drop_last()));
        assert(s[k] == s.drop_last()[k]);
        lemma_standings_map_at(s.drop_last(), k);
    }
}

proof fn lemma_standings_map_update(s: Seq<(u64, u64, i32)>, k: int, v: i32)
    requires
        pairs_distinct(s),
        0 <= k < s.len(),
    ensures
        standings_map(s.update(k, (s[k].0, s[k].1, v))) == standings_map(s).insert((s[k].0, s[k].1), v),
    decreases s.len(),
{
    let t = s.update(k, (s[k].0, s[k].1, v));
    if k == s.len() - 1 {
        assert(t.drop_last() =~= s.drop_last());
        assert(standings_map(t) =~= standings_map(s).insert((s[k].0, s[k].1), v));
    } else {
        assert(pairs_distinct(s.drop_last()));
        assert(s[k] == s.drop_last()[k]);
        lemma_standings_map_update(s.drop_last(), k, v);
        assert(t.drop_last() =~= s.drop_last().update(k, (s[k].0, s[k].1, v)));
        assert(standings_map(t) =~= standings_map(s).insert((s[k].0, s[k].1), v));
    }
}

/// Global social institution and diplomacy manager.
#[derive(Debug)]
pub struct SocialManager {
    guilds: Vec<Guild>,
    alliances: Vec<Alliance>,
    standings: Vec<(u64, u64, i32)>,
}

impl SocialManager {
    /// Registered guilds, in registration order.
    pub closed spec fn spec_guilds(&self) -> Seq<Guild> {
        self.guilds@
    }

    /// Registered alliances, in registration order.
    pub closed spec fn spec_alliances(&self) -> Seq<Alliance> {
        self.alliances@
    }

    /// Recorded standings between ordered pairs.
    pub closed spec fn spec_standings(&self) -> Map<(u64, u64), i32> {
        standings_map(self.standings@)
    }

    /// Guild and alliance identifiers are unique and standings pairs are recorded once.
    pub closed spec fn wf(&self) -> bool {
        &&& pairs_distinct(self.standings@)
        &&& forall|i: int, j: int|
            0 <= i < j < self.guilds@.len() ==> (#[trigger] self.guilds@[i]).guild_id
                != (#[trigger] self.guilds@[j]).guild_id
        &&& forall|i: int, j: int|
            0 <= i < j < self.alliances@.len() ==> (#[trigger] self.alliances@[i]).alliance_id
                != (#[trigger] self.alliances@[j]).alliance_id
    }

    /// Standing score between two parties: maximal for oneself, neutral (0) when unrecorded.
    pub open spec fn spec_standing_score(&self, source_id: u64, target_id: u64) -> i32 {
        if source_id == target_id {
            10_000
        } else if self.spec_standings().contains_key((source_id, target_id)) {
            self.spec_standings()[(source_id, target_id)]
        } else {
            0
        }
    }

    /// Creates an empty social manager.
    pub fn new() -> (m: Self)
        ensures
            m.wf(),
            m.spec_guilds() == Seq::<Guild>::empty(),
            m.spec_alliances() == Seq::<Alliance>::empty(),
            m.spec_standings() == Map::<(u64, u64), i32>::empty(),
    {
        SocialManager { guilds: Vec::new(), alliances: Vec::new(), standings: Vec::new() }
    }

    /// Registers a guild whose identifier is not yet taken.
    pub fn create_guild(&mut self, guild: Guild) -> (r: Result<(), SocialError>)
        requires
            old(self).wf(),
        ensures
            final(self).wf(),
            final(self).spec_alliances() == old(self).spec_alliances(),
            final(self).spec_standings() == old(self).spec_standings(),
            (exists|i: int|
                0 <= i < old(self).spec_guilds().len() && (#[trigger] old(self).spec_guilds()[i]).guild_id
                    == guild.guild_id) ==> r == Err::<(), SocialError>(SocialError::GuildAlreadyExists)
                && final(self).spec_guilds() == old(self).spec_guilds(),
            !(exists|i: int|
                0 <= i < old(self).spec_guilds().len() && (#[trigger] old(self).spec_guilds()[i]).guild_id
                    == guild.guild_id) ==> r is Ok && final(self).spec_guilds() == old(self).spec_guilds().push(guild),
    {
        let mut i: usize = 0;
        while i < self.guilds.len()
            invariant
                i <= self.guilds@.len(),
                *self == *old(self),
                old(self).wf(),
                forall|j: int| 0 <= j < i ==> (#[trigger] self.guilds@[j]).guild_id != guild.guild_id,
            decreases self.guilds@.len() - i,
        {
            if self.guilds[i].guild_id == guild.guild_id {
                return Err(SocialError::GuildAlreadyExists);
            }
            i = i + 1;
        }
        self.guilds.push(guild);
        proof {
            let g = self.guilds@;
            assert forall|a: int, b: int| 0 <= a < b < g.len() implies (#[trigger] g[a]).guild_id
                != (#[trigger] g[b]).guild_id by {
                if b == g.len() - 1 {
                    assert(g[a] == old(self).guilds@[a]);
                } else {
                    assert(g[a] == old(self).guilds@[a] && g[b] == old(self).guilds@[b]);
                }
            }
        }
        Ok(())
    }

    /// Retrieves the guild with identifier `guild_id`.
    pub fn get_guild(&self, guild_id: u64) -> (r: Option<&Guild>)
        ensures
            ({
                let k = first_index(self.spec_guilds(), |g: Guild| g.guild_id == guild_id);
                &&& (r is Some <==> k >= 0)
                &&& r is Some ==> *r->0 == self.spec_guilds()[k]
            }),
    {
        let ghost s = self.guilds@;
        let ghost p = |g: Guild| g.guild_id == guild_id;
        let mut i: usize = 0;
        while i < self.guilds.len()
            invariant
                i <= s.len(),
                s == self.guilds@,
                p == (|g: Guild| g.guild_id == guild_id),
                forall|j: int| 0 <= j < i ==> !p(#[trigger] s[j]),
            decreases s.len() - i,
        {
            if self.guilds[i].guild_id == guild_id {
                proof {
                    lemma_first_index_is(s, p, i as int);
                }
                return Some(&self.guilds[i]);
            }
            i = i + 1;
        }
        proof {
            lemma_first_index_none(s, p);
        }
        None
    }

    /// Retrieves a mutable handle to the guild with identifier `guild_id`.
    #[verifier::loop_isolation(false)]
    pub fn get_guild_mut(&mut self, guild_id: u64) -> (r: Option<&mut Guild>)
        ensures
            ({
                let k = first_index(old(self).spec_guilds(), |g: Guild| g.guild_id == guild_id);
                &&& (r is Some <==> k >= 0)
                &&& k < 0 ==> final(self).spec_guilds() == old(self).spec_guilds()
                &&& k >= 0 ==> *r->0 == old(self).spec_guilds()[k]
                &&& k >= 0 ==> final(self).spec_guilds() == old(self).spec_guilds().update(k, *final(r->0))
            }),
            final(self).spec_alliances() == old(self).spec_alliances(),
            final(self).spec_standings() == old(self).spec_standings(),
    {
        let ghost s = self.guilds@;
        let ghost p = |g: Guild| g.guild_id == guild_id;
        let mut i: usize = 0;
        let mut found = false;
        while i < self.guilds.len()
            invariant
                i <= s.len(),
                s == self.guilds@,
                *self == *old(self),
                !found,
                forall|j: int| 0 <= j < i ==> !p(#[trigger] s[j]),
            decreases s.len() - i,
        {
            if self.guilds[i].guild_id == guild_id {
                proof {
                    lemma_first_index_is(s, p, i as int);
                }
                found = true;
                break;
            }
            i = i + 1;
        }
        if !found {
            proof {
                lemma_first_index_none(s, p);
            }
            return None;
        }
        Some(&mut self.guilds[i])
    }

    /// Registers an alliance whose identifier is not yet taken.
    pub fn create_alliance(&mut self, alliance: Alliance) -> (r: Result<(), SocialError>)
        requires
            old(self).wf(),
        ensures
            final(self).wf(),
            final(self).spec_guilds() == old(self).spec_guilds(),
            final(self).spec_standings() == old(self).spec_standings(),
            (exists|i: int|
                0 <= i < old(self).spec_alliances().len() && (#[trigger] old(self).spec_alliances()[i]).alliance_id == alliance.alliance_id) ==> r == Err::<
                (),
                SocialError,
            >(SocialError::GuildAlreadyExists) && final(self).spec_alliances() == old(self).spec_alliances(),
            !(exists|i: int|
                0 <= i < old(self).spec_alliances().len() && (#[trigger] old(self).spec_alliances()[i]).alliance_id == alliance.alliance_id) ==> r is Ok && final(self).spec_alliances() == old(self).spec_alliances().push(alliance),
    {
        let mut i: usize = 0;
        while i < self.alliances.len()
            invariant
                i <= self.alliances@.len(),
                *self == *old(self),
                old(self).wf(),
                forall|j: int|
                    0 <= j < i ==> (#[trigger] self.alliances@[j]).alliance_id != alliance.alliance_id,
            decreases self.alliances@.len() - i,
        {
            if self.alliances[i].alliance_id == alliance.alliance_id {
                assert(old(self).spec_alliances()[i as int].alliance_id == alliance.alliance_id);
                return Err(SocialError::GuildAlreadyExists);
            }
            i = i + 1;
        }
        self.alliances.push(alliance);
        proof {
            let g = self.alliances@;
            assert forall|a: int, b: int| 0 <= a < b < g.len() implies (#[trigger] g[a]).alliance_id
                != (#[trigger] g[b]).alliance_id by {
                if b == g.len() - 1 {
                    assert(g[a] == old(self).alliances@[a]);
                } else {
                    assert(g[a] == old(self).alliances@[a] && g[b] == old(self).alliances@[b]);
                }
            }
        }
        Ok(())
    }

    /// Records the standing of `source_id` towards `target_id`, clamped into -10,000 ..= 10,000.
    pub fn set_standing(&mut self, source_id: u64, target_id: u64, score: i32)
        requires
            old(self).wf(),
        ensures
            final(self).wf(),
            final(self).spec_guilds() == old(self).spec_guilds(),
            final(self).spec_alliances() == old(self).spec_alliances(),
            final(self).spec_standings() == old(self).spec_standings().insert(
                (source_id, target_id),
                clamp_standing(score),
            ),
    {
        let clamped: i32 = if score < -10_000 {
            -10_000
        } else if score > 10_000 {
            10_000
        } else {
            score
        };
        let ghost s = self.standings@;
        let mut i: usize = 0;
        while i < self.standings.len()
            invariant
                i <= s.len(),
                s == self.standings@,
                *self == *old(self),
                old(self).wf(),
                clamped == clamp_standing(score),
                forall|j: int| 0 <= j < i ==> ((#[trigger] s[j]).0, s[j].1) != (source_id, target_id),
            decreases s.len() - i,
        {
            let (a, b, _) = self.standings[i];
            if a == source_id && b == target_id {
                proof {
                    lemma_standings_map_update(s, i as int, clamped);
                }
                self.standings.set(i, (a, b, clamped));
                proof {
                    let t = self.standings@;
                    assert forall|x: int, y: int| 0 <= x < y < t.len() implies ((#[trigger] t[x]).0,
                    t[x].1) != ((#[trigger] t[y]).0, t[y].1) by {
                        assert((t[x].0, t[x].1) == (s[x].0, s[x].1));
                        assert((t[y].0, t[y].1) == (s[y].0, s[y].1));
                    }
                }
                return;
            }
            i = i + 1;
        }
        self.standings.push((source_id, target_id, clamped));
        proof {
            let t = self.standings@;
            assert(t.drop_last() =~= s);
            assert forall|x: int, y: int| 0 <= x < y < t.len() implies ((#[trigger] t[x]).0, t[x].1)
                != ((#[trigger] t[y]).0, t[y].1) by {
                assert(t[x] == s[x]);
                if y < t.len() - 1 {
                    assert(t[y] == s[y]);
                }
            }
        }
    }

    /// Diplomatic standing score between two entities.
    pub fn get_standing_score(&self, source_id: u64, target_id: u64) -> (score: i32)
        requires
            self.wf(),
        ensures
            score == self.spec_standing_score(source_id, target_id),
    {
        if source_id == target_id {
            return 10_000;
        }
        let ghost s = self.standings@;
        let mut i: usize = 0;
        while i < self.standings.len()
            invariant
                i <= s.len(),
                s == self.standings@,
                self.wf(),
                source_id != target_id,
                forall|j: int| 0 <= j < i ==> ((#[trigger] s[j]).0, s[j].1) != (source_id, target_id),
            decreases s.len() - i,
        {
            let (a, b, v) = self.standings[i];
            if a == source_id && b == target_id {
                proof {
                    lemma_standings_map_at(s, i as int);
                }
                return v;
            }
            i = i + 1;
        }
        proof {
            lemma_standings_map_dom(s, (source_id, target_id));
        }
        0
    }

    /// Qualitative diplomatic relationship between two entities.
    pub fn get_diplomatic_status(&self, source_id: u64, target_id: u64) -> (st: DiplomaticStatus)
        requires
            self.wf(),
        ensures
            st == status_of(self.spec_standing_score(source_id, target_id)),
    {
        let score = self.get_standing_score(source_id, target_id);
        if score <= -6000 {
            DiplomaticStatus::AtWar
        } else if score <= -2000 {
            DiplomaticStatus::Hostile
        } else if score < 2000 {
            DiplomaticStatus::Neutral
        } else if score < 6000 {
            DiplomaticStatus::Friendly
        } else {
            DiplomaticStatus::Allied
        }
    }
}

/// A standing set between two distinct parties is read back clamped, and leaves every other pair as it was.
pub proof fn lemma_standing_read_after_write(
    before: SocialManager,
    after: SocialManager,
    a: u64,
    b: u64,
    score: i32,
    x: u64,
    y: u64,
)
    requires
        after.spec_standings() == before.spec_standings().insert((a, b), clamp_standing(score)),
    ensures
        a != b ==> after.spec_standing_score(a, b) == clamp_standing(score),
        (x, y) != (a, b) ==> after.spec_standing_score(x, y) == before.spec_standing_score(x, y),
        -10_000 <= clamp_standing(score) <= 10_000,
{
}

/// Within the default rank masks, every rank holds all permissions of the ranks below it.
pub proof fn lemma_default_ranks_are_nested(lo: int, hi: int, permission: u32)
    requires
        0 <= lo <= hi < 8,
        (default_rank_permissions()[lo] & permission) == permission,
    ensures
        (default_rank_permissions()[hi] & permission) == permission,
{
    let s = default_rank_permissions();
    assert forall|p: u32| #![trigger (0u32 & p)]
        (0u32 & p) == p ==> (16u32 & p) == p && (48u32 & p) == p && (51u32 & p) == p && (63u32 & p)
            == p && (127u32 & p) == p && (255u32 & p) == p && (0xFFFF_FFFFu32 & p) == p by {
        assert((0u32 & p) == p ==> (16u32 & p) == p && (48u32 & p) == p && (51u32 & p) == p && (63u32
            & p) == p && (127u32 & p) == p && (255u32 & p) == p && (0xFFFF_FFFFu32 & p) == p)
            by (bit_vector);
    }
    assert((16u32 & permission) == permission ==> (48u32 & permission) == permission && (51u32
        & permission) == permission && (63u32 & permission) == permission && (127u32 & permission)
        == permission && (255u32 & permission) == permission && (0xFFFF_FFFFu32 & permission)
        == permission) by (bit_vector);
    assert((48u32 & permission) == permission ==> (51u32 & permission) == permission && (63u32
        & permission) == permission && (127u32 & permission) == permission && (255u32 & permission)
        == permission && (0xFFFF_FFFFu32 & permission) == permission) by (bit_vector);
    assert((51u32 & permission) == permission ==> (63u32 & permission) == permission && (127u32
        & permission) == permission && (255u32 & permission) == permission && (0xFFFF_FFFFu32
        & permission) == permission) by (bit_vector);
    assert((63u32 & permission) == permission ==> (127u32 & permission) == permission && (255u32
        & permission) == permission && (0xFFFF_FFFFu32 & permission) == permission) by (bit_vector);
    assert((127u32 & permission) == permission ==> (255u32 & permission) == permission && (
    0xFFFF_FFFFu32 & permission) == permission) by (bit_vector);
    assert((255u32 & permission) == permission ==> (0xFFFF_FFFFu32 & permission) == permission)
        by (bit_vector);
    assert((0u32 & permission) == permission ==> (16u32 & permission) == permission) by (bit_vector);
}


/// Diplomatic status bands by standing: at war at -6000 and below, hostile above that up to
/// -2000, neutral strictly between -2000 and 2000, friendly from 2000 below 6000, allied from 6000.
pub proof fn lemma_status_bands(score: i32)
    ensures
        (status_of(score) == DiplomaticStatus::AtWar) <==> score <= -6000,
        (status_of(score) == DiplomaticStatus::Hostile) <==> (-6000 < score && score <= -2000),
        (status_of(score) == DiplomaticStatus::Neutral) <==> (-2000 < score && score < 2000),
        (status_of(score) == DiplomaticStatus::Friendly) <==> (2000 <= score && score < 6000),
        (status_of(score) == DiplomaticStatus::Allied) <==> score >= 6000,
{
}

} // verus!
