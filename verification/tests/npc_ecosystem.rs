use eidolon::npc_ecosystem::{
    NpcBrain, NpcLodTier, NpcMovement, NpcSenses, NpcState, PlayerProximity, TargetRange,
};

fn senses(beyond_leash: bool, near_spawn: bool, perceived_player: Option<u64>) -> NpcSenses {
    NpcSenses { beyond_leash, near_spawn, perceived_player }
}

#[test]
fn test_npc_spawn_and_initial_dormant_lod() {
    let npc = NpcBrain::new(1000);
    assert_eq!(npc.health(), 1000);
    assert_eq!(npc.state(), NpcState::Idle);
    assert_eq!(npc.lod(), NpcLodTier::Dormant);
}

#[test]
fn test_update_lod_tiers_by_distance() {
    let mut npc = NpcBrain::new(1000);
    // Player at 10 m: within 15 m.
    npc.update_lod(PlayerProximity::Within15);
    assert_eq!(npc.lod(), NpcLodTier::ActiveCombat);
    // Player at 30 m: within 50 m.
    npc.update_lod(PlayerProximity::Within50);
    assert_eq!(npc.lod(), NpcLodTier::MidTier);
    // Player at 100 m: beyond 50 m.
    npc.update_lod(PlayerProximity::Beyond);
    assert_eq!(npc.lod(), NpcLodTier::Dormant);
}

#[test]
fn test_leashing_evade_and_health_restoration() {
    let mut npc = NpcBrain::new(1000);
    npc.apply_damage(101, 400, 1);
    assert_eq!(npc.health(), 600);
    assert_eq!(npc.state(), NpcState::Chasing);
    assert_eq!(npc.target(), Some(101));

    // The NPC stands 25 m out, beyond its 20 m leash.
    let m = npc.tick(1, senses(true, false, None), &[(101, TargetRange::Far)]);
    assert_eq!(m, NpcMovement::StepTowardSpawn);
    assert_eq!(npc.state(), NpcState::Evading);
    assert!(npc.threat_table().is_empty());
    assert_eq!(npc.target(), None);

    // Evading NPCs ignore damage; back at spawn, health is restored.
    npc.apply_damage(101, 100, 2);
    assert_eq!(npc.health(), 600);
    let m = npc.tick(2, senses(false, true, None), &[]);
    assert_eq!(m, NpcMovement::ResetAtSpawn);
    assert_eq!(npc.state(), NpcState::Idle);
    assert_eq!(npc.health(), 1000);
}

#[test]
fn npc_aggro_chase_attack_cycle() {
    let mut npc = NpcBrain::new(500);
    npc.update_lod(PlayerProximity::Within15);
    assert_eq!(npc.tick(3, senses(false, false, None), &[]), NpcMovement::Stay);
    assert_eq!(npc.state(), NpcState::Idle);
    assert_eq!(npc.tick(4, senses(false, false, Some(7)), &[(7, TargetRange::Far)]), NpcMovement::Stay);
    assert_eq!(npc.state(), NpcState::Chasing);
    assert_eq!(npc.target(), Some(7));
    assert_eq!(
        npc.tick(5, senses(false, false, None), &[(7, TargetRange::Far)]),
        NpcMovement::StepTowardTarget(7)
    );
    npc.tick(6, senses(false, false, None), &[(7, TargetRange::Melee)]);
    assert_eq!(npc.state(), NpcState::Attacking);
    npc.tick(7, senses(false, false, None), &[(7, TargetRange::Hold)]);
    assert_eq!(npc.state(), NpcState::Attacking);
    npc.tick(8, senses(false, false, None), &[(7, TargetRange::Far)]);
    assert_eq!(npc.state(), NpcState::Chasing);
    // The target logged out: it is forgotten, and with no threat left the NPC evades.
    npc.tick(9, senses(false, false, None), &[]);
    assert!(npc.threat_table().is_empty());
    npc.tick(10, senses(false, false, None), &[]);
    assert_eq!(npc.state(), NpcState::Evading);
}

#[test]
fn mid_tier_npcs_think_every_tenth_tick() {
    let mut npc = NpcBrain::new(10);
    npc.update_lod(PlayerProximity::Within50);
    npc.tick(11, senses(false, false, Some(3)), &[]);
    assert_eq!(npc.state(), NpcState::Idle);
    npc.tick(20, senses(false, false, Some(3)), &[]);
    assert_eq!(npc.state(), NpcState::Chasing);
    npc.apply_taunt(9, 50, 20);
    assert_eq!(npc.target(), Some(9));
}
