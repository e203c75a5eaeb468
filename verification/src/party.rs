//! Player parties: up to eight members under a leader, with invitation workflows and leader
//! succession when the leader leaves.
use vstd::prelude::*;
use std::collections::HashMap;

use crate::error::WorldError;
use crate::slots::{first_index, lemma_first_index, lemma_first_index_is, lemma_first_index_none};

verus! {

broadcast use vstd::std_specs::hash::group_hash_axioms;

/// Maximum members of one party.
pub const MAX_GROUP_MEMBERS: usize = 8;

/// Vitals of one party member.
#[derive(Debug, Clone, PartialEq, Eq)]
pub struct PartyMember {
    /// Account identifier.
    pub account_id: u64,
    /// Entity identifier in the world simulation.
    pub entity_id: u32,
    /// Character name.
    pub name: String,
    /// Current health.
    pub health: u32,
    /// Maximum health.
    pub max_health: u32,
    /// Current mana.
    pub mana: u32,
    /// Maximum mana.
    pub max_mana: u32,
}

/// A party group.
#[derive(Debug)]
pub struct Party {
    /// Party identifier.
    pub party_id: u64,
    /// Account of the leader.
    pub leader_account_id: u64,
    /// Members in order of joining.
    pub members: Vec<PartyMember>,
}

/// Member predicate: the member with account `id`.
pub open spec fn member_of(id: u64) -> spec_fn(PartyMember) -> bool {
    |m: PartyMember| m.account_id == id
}

/// Whether account `id` is among `members`.
pub open spec fn has_member(members: Seq<PartyMember>, id: u64) -> bool {
    first_index(members, member_of(id)) >= 0
}

impl Party {
    /// At most eight members, no account twice, and a leader who is a member.
    pub open spec fn wf(&self) -> bool {
        &&& self.members@.len() <= 8
        &&& forall|i: int, j: int|
            0 <= i < j < self.members@.len() ==> (#[trigger] self.members@[i]).account_id != (
            #[trigger] self.members@[j]).account_id
        &&& self.members@.len() > 0 ==> has_member(self.members@, self.leader_account_id)
    }

    /// A party whose only member, `leader`, leads it.
    pub fn new(party_id: u64, leader: PartyMember) -> (p: Self)
        ensures
            p.wf(),
            p.party_id == party_id,
            p.leader_account_id == leader.account_id,
            p.members@ == seq![leader],
    {
        let leader_id = leader.account_id;
        let mut members = Vec::new();
        members.push(leader);
        let p = Party { party_id, leader_account_id: leader_id, members };
        proof {
            lemma_first_index_is(p.members@, member_of(leader_id), 0);
        }
        p
    }

    fn find_member(&self, account_id: u64) -> (k: Option<usize>)
        ensures
            match k {
                Some(i) => i == first_index(self.members@, member_of(account_id)) && i
                    < self.members@.len(),
                None => first_index(self.members@, member_of(account_id)) == -1,
            },
    {
        let ghost s = self.members@;
        let ghost p = member_of(account_id);
        let mut i: usize = 0;
        while i < self.members.len()
            invariant
                i <= s.len(),
                s == self.members@,
                p == member_of(account_id),
                forall|j: int| 0 <= j < i ==> !p(#[trigger] s[j]),
            decreases s.len() - i,
        {
            if self.members[i].account_id == account_id {
                proof {
                    lemma_first_index_is(s, p, i as int);
                }
                return Some(i);
            }
            i = i + 1;
        }
        proof {
            lemma_first_index_none(s, p);
        }
        None
    }

    /// Whether `account_id` is a member.
    pub fn is_member(&self, account_id: u64) -> (b: bool)
        ensures
            b == has_member(self.members@, account_id),
    {
        self.find_member(account_id).is_some()
    }

    /// Whether `account_id` leads the party.
    pub fn is_leader(&self, account_id: u64) -> (b: bool)
        ensures
            b == (self.leader_account_id == account_id),
    {
        self.leader_account_id == account_id
    }

    /// Adds `member`; a full party or an account already in it is refused.
    pub fn add_member(&mut self, member: PartyMember) -> (r: Result<(), WorldError>)
        ensures
            final(self).party_id == old(self).party_id,
            final(self).leader_account_id == old(self).leader_account_id,
            old(self).members@.len() >= 8 || has_member(old(self).members@, member.account_id)
                ==> (r matches Err(WorldError::TransactionAborted(_))) && *final(self) == *old(self),
            !(old(self).members@.len() >= 8 || has_member(old(self).members@, member.account_id))
                ==> r is Ok && final(self).members@ == old(self).members@.push(member),
            old(self).wf() && (old(self).members@.len() > 0 || member.account_id
                == old(self).leader_account_id) ==> final(self).wf(),
    {
        if self.members.len() >= MAX_GROUP_MEMBERS {
            return Err(WorldError::TransactionAborted("Party is full"));
        }
        if self.is_member(member.account_id) {
            return Err(WorldError::TransactionAborted("Player already in party"));
        }
        let ghost s = self.members@;
        let ghost id = member.account_id;
        self.members.push(member);
        proof {
            lemma_first_index(s, member_of(id));
            let t = self.members@;
            if old(self).wf() {
                assert forall|i: int, j: int| 0 <= i < j < t.len() implies (#[trigger] t[i]).account_id
                    != (#[trigger] t[j]).account_id by {
                    if j == t.len() - 1 {
                        assert(!member_of(id)(s[i]));
                    }
                }
                if s.len() > 0 {
                    let l = self.leader_account_id;
                    lemma_first_index(s, member_of(l));
                    let k = first_index(s, member_of(l));
                    assert forall|j: int| 0 <= j < k implies !member_of(l)(#[trigger] t[j]) by {
                        assert(t[j] == s[j]);
                    }
                    assert(t[k] == s[k]);
                    lemma_first_index_is(t, member_of(l), k);
                }
            }
        }
        Ok(())
    }

    /// Removes member `account_id` and returns whether the party is now empty; when the leader
    /// leaves a non-empty party, the earliest remaining member leads. A non-member is refused.
    pub fn remove_member(&mut self, account_id: u64) -> (r: Result<bool, WorldError>)
        ensures
            final(self).party_id == old(self).party_id,
            ({
                let k = first_index(old(self).members@, member_of(account_id));
                if k < 0 {
                    &&& r matches Err(WorldError::TransactionAborted(_))
                    &&& *final(self) == *old(self)
                } else {
                    let rest = old(self).members@.remove(k);
                    &&& final(self).members@ == rest
                    &&& r == Ok::<bool, WorldError>(rest.len() == 0)
                    &&& final(self).leader_account_id == if rest.len() > 0
                        && old(self).leader_account_id == account_id {
                        rest[0].account_id
                    } else {
                        old(self).leader_account_id
                    }
                }
            }),
            old(self).wf() ==> final(self).wf(),
    {
        let pos = match self.find_member(account_id) {
            Some(p) => p,
            None => {
                return Err(WorldError::TransactionAborted("Player not in party"));
            },
        };
        let ghost s = self.members@;
        self.members.remove(pos);
        if self.members.len() == 0 {
            proof {
                assert(old(self).wf() ==> self.wf());
            }
            return Ok(true);
        }
        if self.leader_account_id == account_id {
            self.leader_account_id = self.members[0].account_id;
        }
        proof {
            let t = self.members@;
            if old(self).wf() {
                assert forall|i: int, j: int| 0 <= i < j < t.len() implies (#[trigger] t[i]).account_id
                    != (#[trigger] t[j]).account_id by {
                    let oi = if i < pos { i } else { i + 1 };
                    let oj = if j < pos { j } else { j + 1 };
                    assert(t[i] == s[oi]);
                    assert(t[j] == s[oj]);
                }
                let l = self.leader_account_id;
                if l == t[0].account_id {
                    lemma_first_index_is(t, member_of(l), 0);
                } else {
                    lemma_first_index(s, member_of(l));
                    let k = first_index(s, member_of(l));
                    assert(k != pos) by {
                        lemma_first_index(s, member_of(account_id));
                    }
                    let nk = if k < pos { k } else { k - 1 };
                    assert(t[nk] == s[k]);
                    assert forall|j: int| 0 <= j < nk implies !member_of(l)(#[trigger] t[j]) by {
                        let oj = if j < pos { j } else { j + 1 };
                        assert(t[j] == s[oj]);
                        if oj < k {
                        } else {
                            assert(s[oj].account_id != s[k].account_id);
                        }
                    }
                    lemma_first_index_is(t, member_of(l), nk);
                }
            }
        }
        Ok(false)
    }

    /// Makes member `new_leader_id` the leader; a non-member is refused.
    pub fn promote_leader(&mut self, new_leader_id: u64) -> (r: Result<(), WorldError>)
        ensures
            final(self).party_id == old(self).party_id,
            final(self).members@ == old(self).members@,
            has_member(old(self).members@, new_leader_id) ==> r is Ok
                && final(self).leader_account_id == new_leader_id,
            !has_member(old(self).members@, new_leader_id) ==> (r matches Err(
                WorldError::TransactionAborted(_),
            )) && *final(self) == *old(self),
            old(self).wf() ==> final(self).wf(),
    {
        if !self.is_member(new_leader_id) {
            return Err(WorldError::TransactionAborted("Player not in party"));
        }
        self.leader_account_id = new_leader_id;
        Ok(())
    }

    /// Sets the health and mana of member `account_id`; a non-member changes nothing.
    pub fn update_member_vitals(&mut self, account_id: u64, health: u32, mana: u32)
        ensures
            final(self).party_id == old(self).party_id,
            final(self).leader_account_id == old(self).leader_account_id,
            ({
                let k = first_index(old(self).members@, member_of(account_id));
                if k < 0 {
                    final(self).members@ == old(self).members@
                } else {
                    final(self).members@ == old(self).members@.update(
                        k,
                        PartyMember { health, mana, ..old(self).members@[k] },
                    )
                }
            }),
            old(self).wf() ==> final(self).wf(),
    {
        if let Some(k) = self.find_member(account_id) {
            let ghost s = self.members@;
            let m = self.members.remove(k);
            let updated = PartyMember {
                account_id: m.account_id,
                entity_id: m.entity_id,
                name: m.name,
                health,
                mana,
                max_health: m.max_health,
                max_mana: m.max_mana,
            };
            self.members.insert(k, updated);
            proof {
                assert(self.members@ =~= s.update(k as int, PartyMember { health, mana, ..s[k as int] }));
                let t = self.members@;
                if old(self).wf() && t.len() > 0 {
                    let l = self.leader_account_id;
                    lemma_first_index(s, member_of(l));
                    let f = first_index(s, member_of(l));
                    assert forall|j: int| 0 <= j < f implies !member_of(l)(#[trigger] t[j]) by {
                        assert(t[j].account_id == s[j].account_id);
                    }
                    assert(t[f].account_id == s[f].account_id);
                    lemma_first_index_is(t, member_of(l), f);
                }
            }
        }
    }
}

/// Party predicate: the party with identifier `id`.
pub open spec fn party_with_id(id: u64) -> spec_fn(Party) -> bool {
    |p: Party| p.party_id == id
}

/// Parties, memberships and pending invitations.
#[derive(Debug)]
pub struct PartyManager {
    next_party_id: u64,
    parties: Vec<Party>,
    account_to_party: HashMap<u64, u64>,
    pending_invites: HashMap<u64, u64>,
}

impl PartyManager {
    /// Identifier the next party receives.
    pub closed spec fn spec_next_party_id(&self) -> u64 {
        self.next_party_id
    }

    /// Existing parties.
    pub closed spec fn spec_parties(&self) -> Seq<Party> {
        self.parties@
    }

    /// Party of each account in a party.
    pub closed spec fn spec_memberships(&self) -> Map<u64, u64> {
        self.account_to_party@
    }

    /// Party each invited account is invited to.
    pub closed spec fn spec_invites(&self) -> Map<u64, u64> {
        self.pending_invites@
    }

    /// Every party identifier is below the next one to be issued.
    pub closed spec fn wf(&self) -> bool {
        forall|i: int| 0 <= i < self.parties@.len() ==> (#[trigger] self.parties@[i]).party_id
            < self.next_party_id
    }

    /// The party with identifier `id`, as an index into the parties.
    pub open spec fn party_index(&self, id: u64) -> int {
        first_index(self.spec_parties(), party_with_id(id))
    }

    /// No parties; the first party gets identifier 1.
    pub fn new() -> (m: Self)
        ensures
            m.wf(),
            m.spec_next_party_id() == 1,
            m.spec_parties() == Seq::<Party>::empty(),
            m.spec_memberships() == Map::<u64, u64>::empty(),
            m.spec_invites() == Map::<u64, u64>::empty(),
    {
        PartyManager {
            next_party_id: 1,
            parties: Vec::new(),
            account_to_party: HashMap::new(),
            pending_invites: HashMap::new(),
        }
    }

    fn find_party(&self, party_id: u64) -> (k: Option<usize>)
        ensures
            match k {
                Some(i) => i == self.party_index(party_id) && i < self.spec_parties().len()
                    && self.spec_parties()[i as int].party_id == party_id,
                None => self.party_index(party_id) == -1,
            },
    {
        let ghost s = self.parties@;
        let ghost p = party_with_id(party_id);
        let mut i: usize = 0;
        while i < self.parties.len()
            invariant
                i <= s.len(),
                s == self.parties@,
                p == party_with_id(party_id),
                forall|j: int| 0 <= j < i ==> !p(#[trigger] s[j]),
            decreases s.len() - i,
        {
            if self.parties[i].party_id == party_id {
                proof {
                    lemma_first_index_is(s, p, i as int);
                }
                return Some(i);
            }
            i = i + 1;
        }
        proof {
            lemma_first_index_none(s, p);
        }
        None
    }

    /// Creates a party led by `leader` under the next identifier; an account already in a
    /// party is refused.
    pub fn create_party(&mut self, leader: PartyMember) -> (r: Result<u64, WorldError>)
        requires
            old(self).wf(),
            old(self).spec_next_party_id() < u64::MAX,
        ensures
            final(self).wf(),
            final(self).spec_invites() == old(self).spec_invites(),
            old(self).spec_memberships().contains_key(leader.account_id) ==> (r matches Err(WorldError::TransactionAborted(_))) && final(self).spec_parties() == old(self).spec_parties() && final(self).spec_memberships() == old(self).spec_memberships() && final(self).spec_next_party_id()
                == old(self).spec_next_party_id(),
            !old(self).spec_memberships().contains_key(leader.account_id) ==> ({
                let pid = old(self).spec_next_party_id();
                &&& r == Ok::<u64, WorldError>(pid)
                &&& final(self).spec_next_party_id() == pid + 1
                &&& final(self).spec_parties().len() == old(self).spec_parties().len() + 1
                &&& final(self).spec_parties().drop_last() == old(self).spec_parties()
                &&& final(self).spec_parties().last().party_id == pid
                &&& final(self).spec_parties().last().leader_account_id == leader.account_id
                &&& final(self).spec_parties().last().members@ == seq![leader]
                &&& final(self).spec_memberships() == old(self).spec_memberships().insert(
                    leader.account_id,
                    pid,
                )
                &&& old(self).party_index(pid) == -1
            }),
    {
        let leader_id = leader.account_id;
        if self.account_to_party.contains_key(&leader_id) {
            return Err(WorldError::TransactionAborted("Player already in a party"));
        }
        let pid = self.next_party_id;
        proof {
            let s = self.parties@;
            assert forall|j: int| 0 <= j < s.len() implies !party_with_id(pid)(#[trigger] s[j]) by {}
            lemma_first_index_none(s, party_with_id(pid));
        }
        self.next_party_id = self.next_party_id + 1;
        let party = Party::new(pid, leader);
        self.parties.push(party);
        self.account_to_party.insert(leader_id, pid);
        assert(self.parties@.drop_last() =~= old(self).parties@);
        Ok(pid)
    }

    /// Records an invitation of `target_account` to party `party_id` by `caller_account`. The
    /// party must exist, the caller lead it, the party have room and the target be in no party.
    pub fn invite_player(&mut self, party_id: u64, caller_account: u64, target_account: u64) -> (r:
        Result<(), WorldError>)
        ensures
            final(self).spec_parties() == old(self).spec_parties(),
            final(self).spec_memberships() == old(self).spec_memberships(),
            final(self).spec_next_party_id() == old(self).spec_next_party_id(),
            ({
                let k = old(self).party_index(party_id);
                let ok = k >= 0 && old(self).spec_parties()[k].leader_account_id == caller_account
                    && old(self).spec_parties()[k].members@.len() < 8
                    && !old(self).spec_memberships().contains_key(target_account);
                if ok {
                    r is Ok && final(self).spec_invites() == old(self).spec_invites().insert(
                        target_account,
                        party_id,
                    )
                } else {
                    (r matches Err(WorldError::TransactionAborted(_))) && final(self).spec_invites()
                        == old(self).spec_invites()
                }
            }),
    {
        let k = match self.find_party(party_id) {
            Some(k) => k,
            None => {
                return Err(WorldError::TransactionAborted("Party does not exist"));
            },
        };
        if !self.parties[k].is_leader(caller_account) {
            return Err(WorldError::TransactionAborted("Only party leader can invite"));
        }
        if self.parties[k].members.len() >= MAX_GROUP_MEMBERS {
            return Err(WorldError::TransactionAborted("Party is full"));
        }
        if self.account_to_party.contains_key(&target_account) {
            return Err(WorldError::TransactionAborted("Target player already in a party"));
        }
        self.pending_invites.insert(target_account, party_id);
        Ok(())
    }

    /// Accepts the pending invitation of `target_account`, adding `member` to the inviting party
    /// and returning its identifier. The invitation is consumed even when the party has since
    /// disappeared or refuses the member.
    pub fn accept_invite(&mut self, target_account: u64, member: PartyMember) -> (r: Result<
        u64,
        WorldError,
    >)
        requires
            old(self).wf(),
        ensures
            final(self).wf(),
            final(self).spec_next_party_id() == old(self).spec_next_party_id(),
            final(self).spec_invites() == old(self).spec_invites().remove(target_account),
            ({
                let invites = old(self).spec_invites();
                let parties = old(self).spec_parties();
                if !invites.contains_key(target_account) {
                    (r matches Err(WorldError::TransactionAborted(_))) && final(self).spec_parties()
                        == parties && final(self).spec_memberships() == old(self).spec_memberships()
                } else {
                    let pid = invites[target_account];
                    let k = old(self).party_index(pid);
                    if k < 0 || parties[k].members@.len() >= 8 || has_member(
                        parties[k].members@,
                        member.account_id,
                    ) {
                        (r matches Err(WorldError::TransactionAborted(_))) && final(self).spec_parties()
                            == parties && final(self).spec_memberships() == old(self).spec_memberships()
                    } else {
                        &&& r == Ok::<u64, WorldError>(pid)
                        &&& final(self).spec_parties().len() == parties.len()
                        &&& forall|i: int|
                            0 <= i < parties.len() && i != k ==> #[trigger] final(self).spec_parties()[i]
                                == parties[i]
                        &&& final(self).spec_parties()[k].party_id == pid
                        &&& final(self).spec_parties()[k].leader_account_id
                            == parties[k].leader_account_id
                        &&& final(self).spec_parties()[k].members@ == parties[k].members@.push(member)
                        &&& final(self).spec_memberships() == old(self).spec_memberships().insert(
                            target_account,
                            pid,
                        )
                    }
                }
            }),
    {
        let party_id = match self.pending_invites.remove(&target_account) {
            Some(pid) => pid,
            None => {
                return Err(WorldError::TransactionAborted("No pending invitation found"));
            },
        };
        let k = match self.find_party(party_id) {
            Some(k) => k,
            None => {
                return Err(WorldError::TransactionAborted("Party no longer exists"));
            },
        };
        let ghost before = self.parties@;
        let party = &mut self.parties[k];
        let added = party.add_member(member);
        proof {
            assert(self.parties@ == before.update(k as int, self.parties@[k as int]));
        }
        match added {
            Ok(()) => {},
            Err(e) => {
                assert(self.parties@ =~= before);
                return Err(e);
            },
        }
        self.account_to_party.insert(target_account, party_id);
        Ok(party_id)
    }

    /// Withdraws any invitation of `target_account`.
    pub fn decline_invite(&mut self, target_account: u64)
        ensures
            final(self).spec_invites() == old(self).spec_invites().remove(target_account),
            final(self).spec_parties() == old(self).spec_parties(),
            final(self).spec_memberships() == old(self).spec_memberships(),
            final(self).spec_next_party_id() == old(self).spec_next_party_id(),
    {
        self.pending_invites.remove(&target_account);
    }

    /// Takes `account_id` out of its party, disbanding the party when it empties, and returns
    /// the party's identifier (`None` for an account in no party).
    pub fn leave_party(&mut self, account_id: u64) -> (r: Result<Option<u64>, WorldError>)
        requires
            old(self).wf(),
        ensures
            final(self).wf(),
            final(self).spec_next_party_id() == old(self).spec_next_party_id(),
            final(self).spec_invites() == old(self).spec_invites(),
            final(self).spec_memberships() == old(self).spec_memberships().remove(account_id),
            !old(self).spec_memberships().contains_key(account_id) ==> r == Ok::<
                Option<u64>,
                WorldError,
            >(None) && final(self).spec_parties() == old(self).spec_parties(),
            old(self).spec_memberships().contains_key(account_id) ==> ({
                let pid = old(self).spec_memberships()[account_id];
                let parties = old(self).spec_parties();
                let k = old(self).party_index(pid);
                if k < 0 {
                    r == Ok::<Option<u64>, WorldError>(Some(pid)) && final(self).spec_parties()
                        == parties
                } else {
                    let m = first_index(parties[k].members@, member_of(account_id));
                    if m < 0 {
                        (r matches Err(WorldError::TransactionAborted(_))) && final(self).spec_parties()
                            == parties
                    } else if parties[k].members@.len() == 1 {
                        r == Ok::<Option<u64>, WorldError>(Some(pid)) && final(self).spec_parties()
                            == parties.remove(k)
                    } else {
                        let rest = parties[k].members@.remove(m);
                        &&& r == Ok::<Option<u64>, WorldError>(Some(pid))
                        &&& final(self).spec_parties().len() == parties.len()
                        &&& forall|i: int|
                            0 <= i < parties.len() && i != k ==> #[trigger] final(self).spec_parties()[i]
                                == parties[i]
                        &&& final(self).spec_parties()[k].party_id == pid
                        &&& final(self).spec_parties()[k].members@ == rest
                        &&& final(self).spec_parties()[k].leader_account_id == if parties[k].leader_account_id
                            == account_id {
                            rest[0].account_id
                        } else {
                            parties[k].leader_account_id
                        }
                    }
                }
            }),
    {
        let party_id = match self.account_to_party.remove(&account_id) {
            Some(pid) => pid,
            None => {
                return Ok(None);
            },
        };
        let k = match self.find_party(party_id) {
            Some(k) => k,
            None => {
                return Ok(Some(party_id));
            },
        };
        let ghost before = self.parties@;
        let removed = self.parties[k].remove_member(account_id);
        proof {
            assert(self.parties@ == before.update(k as int, self.parties@[k as int]));
        }
        let empty = match removed {
            Ok(e) => e,
            Err(e) => {
                assert(self.parties@ =~= before);
                return Err(e);
            },
        };
        proof {
            lemma_first_index(before[k as int].members@, member_of(account_id));
        }
        if empty {
            self.parties.remove(k);
            assert(self.parties@ =~= before.remove(k as int));
        }
        Ok(Some(party_id))
    }

    /// The party with identifier `party_id`.
    pub fn get_party(&self, party_id: u64) -> (r: Option<&Party>)
        ensures
            ({
                let k = self.party_index(party_id);
                match r {
                    Some(p) => k >= 0 && *p == self.spec_parties()[k],
                    None => k < 0,
                }
            }),
    {
        match self.find_party(party_id) {
            Some(k) => Some(&self.parties[k]),
            None => None,
        }
    }

    /// Mutable access to the party with identifier `party_id`.
    pub fn get_party_mut(&mut self, party_id: u64) -> (r: Option<&mut Party>)
        ensures
            ({
                let k = old(self).party_index(party_id);
                match r {
                    Some(p) => k >= 0 && *p == old(self).spec_parties()[k]
                        && final(self).spec_parties() == old(self).spec_parties().update(k, *final(p))
                        && final(self).spec_memberships() == old(self).spec_memberships()
                        && final(self).spec_invites() == old(self).spec_invites()
                        && final(self).spec_next_party_id() == old(self).spec_next_party_id(),
                    None => k < 0 && *final(self) == *old(self),
                }
            }),
    {
        match self.find_party(party_id) {
            Some(k) => Some(&mut self.parties[k]),
            None => None,
        }
    }

    /// The party of `account_id`.
    pub fn get_party_by_account(&self, account_id: u64) -> (r: Option<&Party>)
        ensures
            ({
                let m = self.spec_memberships();
                match r {
                    Some(p) => m.contains_key(account_id) && self.party_index(m[account_id]) >= 0
                        && *p == self.spec_parties()[self.party_index(m[account_id])],
                    None => !m.contains_key(account_id) || self.party_index(m[account_id]) < 0,
                }
            }),
    {
        let pid = match self.account_to_party.get(&account_id) {
            Some(p) => *p,
            None => {
                return None;
            },
        };
        self.get_party(pid)
    }

    /// Mutable access to the party of `account_id`.
    pub fn get_party_by_account_mut(&mut self, account_id: u64) -> (r: Option<&mut Party>)
        ensures
            ({
                let m = old(self).spec_memberships();
                match r {
                    Some(p) => m.contains_key(account_id) && old(self).party_index(m[account_id]) >= 0
                        && *p == old(self).spec_parties()[old(self).party_index(m[account_id])]
                        && final(self).spec_parties() == old(self).spec_parties().update(
                        old(self).party_index(m[account_id]),
                        *final(p),
                    ) && final(self).spec_memberships() == m,
                    None => (!m.contains_key(account_id) || old(self).party_index(m[account_id]) < 0)
                        && *final(self) == *old(self),
                }
            }),
    {
        let pid = match self.account_to_party.get(&account_id) {
            Some(p) => *p,
            None => {
                return None;
            },
        };
        self.get_party_mut(pid)
    }
}

} // verus!
