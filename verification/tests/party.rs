use eidolon::error::WorldError;
use eidolon::party::{Party, PartyManager, PartyMember, MAX_GROUP_MEMBERS};

fn make_member(id: u64, name: &'static str) -> PartyMember {
    PartyMember {
        account_id: id,
        entity_id: id as u32,
        name: name.to_string(),
        health: 100,
        max_health: 100,
        mana: 50,
        max_mana: 50,
    }
}

#[test]
fn test_party_lifecycle_and_invitations() {
    let mut manager = PartyManager::new();

    let leader = make_member(1001, "Sir Galahad");
    let pid = manager.create_party(leader).expect("Create party");

    assert_eq!(manager.get_party(pid).unwrap().members.len(), 1);
    assert!(manager.get_party(pid).unwrap().is_leader(1001));

    // Invite player 1002
    manager.invite_player(pid, 1001, 1002).expect("Invite 1002");

    // Non-leader cannot invite
    let err = manager.invite_player(pid, 1002, 1003);
    assert!(err.is_err());

    // Player 1002 accepts
    let member_2 = make_member(1002, "Lady Guinevere");
    let accepted_pid = manager
        .accept_invite(1002, member_2)
        .expect("Accept invite");
    assert_eq!(accepted_pid, pid);

    assert_eq!(manager.get_party(pid).unwrap().members.len(), 2);
    assert!(manager.get_party(pid).unwrap().is_member(1002));

    // Update vitals
    if let Some(party) = manager.get_party_by_account_mut(1002) {
        party.update_member_vitals(1002, 85, 40);
    }

    let party = manager.get_party(pid).unwrap();
    let m2 = party.members.iter().find(|m| m.account_id == 1002).unwrap();
    assert_eq!(m2.health, 85);

    // Leader leaves: next member automatically promoted to leader
    manager.leave_party(1001).expect("Leader leaves");
    let party = manager.get_party(pid).unwrap();
    assert_eq!(party.members.len(), 1);
    assert_eq!(party.leader_account_id, 1002);

    // Last member leaves: party is disbanded
    manager.leave_party(1002).expect("Last member leaves");
    assert!(manager.get_party(pid).is_none());
}

#[test]
fn party_refuses_ninth_member_and_duplicates() {
    let mut party = Party::new(7, make_member(1, "a"));
    assert_eq!(
        party.add_member(make_member(1, "again")),
        Err(WorldError::TransactionAborted("Player already in party"))
    );
    for id in 2..=(MAX_GROUP_MEMBERS as u64) {
        assert!(party.add_member(make_member(id, "m")).is_ok());
    }
    assert_eq!(party.members.len(), MAX_GROUP_MEMBERS);
    assert_eq!(
        party.add_member(make_member(99, "late")),
        Err(WorldError::TransactionAborted("Party is full"))
    );
}

#[test]
fn party_leader_stays_a_member_after_promotion_and_departure() {
    let mut party = Party::new(1, make_member(10, "lead"));
    party.add_member(make_member(20, "b")).unwrap();
    party.add_member(make_member(30, "c")).unwrap();
    assert!(party.promote_leader(99).is_err());
    party.promote_leader(30).unwrap();
    assert_eq!(party.leader_account_id, 30);
    assert_eq!(party.remove_member(30), Ok(false));
    assert_eq!(party.leader_account_id, 10);
    assert!(party.is_member(party.leader_account_id));
    assert_eq!(
        party.remove_member(30),
        Err(WorldError::TransactionAborted("Player not in party"))
    );
}

#[test]
fn manager_refuses_second_party_and_stale_invites() {
    let mut manager = PartyManager::new();
    let first = manager.create_party(make_member(1, "a")).unwrap();
    assert_eq!(first, 1);
    assert!(manager.create_party(make_member(1, "a")).is_err());
    let second = manager.create_party(make_member(2, "b")).unwrap();
    assert_eq!(second, 2);
    // A player already in a party cannot be invited.
    assert!(manager.invite_player(first, 1, 2).is_err());
    // An unknown party cannot invite.
    assert!(manager.invite_player(55, 1, 3).is_err());
    manager.invite_player(first, 1, 3).unwrap();
    manager.decline_invite(3);
    assert_eq!(
        manager.accept_invite(3, make_member(3, "c")),
        Err(WorldError::TransactionAborted("No pending invitation found"))
    );
    assert_eq!(manager.leave_party(42), Ok(None));
    assert_eq!(manager.get_party_by_account(2).unwrap().party_id, second);
}
