use eidolon::social::{
    Alliance, DiplomaticStatus, Guild, SocialError, SocialManager, GUILD_PERM_CLAIM_TERRITORY,
    GUILD_PERM_INVITE, GUILD_PERM_VAULT_WITHDRAW,
};

#[test]
fn test_guild_creation_and_permission_hierarchy() {
    let mut guild = Guild::new(1, "Order of the Phoenix", "PHX", 101, 1001, 1);
    assert_eq!(guild.master_account_id, 101);
    assert!(guild.has_permission(101, GUILD_PERM_INVITE));
    assert!(guild.has_permission(101, GUILD_PERM_CLAIM_TERRITORY));

    guild.add_member(202, 2002, 2).unwrap();
    assert!(!guild.has_permission(202, GUILD_PERM_VAULT_WITHDRAW));
    assert!(!guild.has_permission(202, GUILD_PERM_INVITE));

    guild.set_rank(101, 202, 2).unwrap();
    assert!(guild.has_permission(202, GUILD_PERM_VAULT_WITHDRAW));
    assert!(!guild.has_permission(202, GUILD_PERM_INVITE));

    guild.set_rank(101, 202, 3).unwrap();
    assert!(guild.has_permission(202, GUILD_PERM_INVITE));
    assert!(!guild.has_permission(202, GUILD_PERM_CLAIM_TERRITORY));
}

#[test]
fn test_diplomatic_standing_transitions() {
    let mut social = SocialManager::new();

    assert_eq!(social.get_diplomatic_status(1, 2), DiplomaticStatus::Neutral);

    social.set_standing(1, 2, -8000);
    assert_eq!(social.get_diplomatic_status(1, 2), DiplomaticStatus::AtWar);

    social.set_standing(1, 2, 3000);
    assert_eq!(social.get_diplomatic_status(1, 2), DiplomaticStatus::Friendly);

    social.set_standing(1, 2, 8000);
    assert_eq!(social.get_diplomatic_status(1, 2), DiplomaticStatus::Allied);
}

#[test]
fn standings_are_clamped_directional_and_self_allied() {
    let mut social = SocialManager::new();
    social.set_standing(1, 2, 50_000);
    assert_eq!(social.get_standing_score(1, 2), 10_000);
    assert_eq!(social.get_standing_score(2, 1), 0);
    social.set_standing(3, 4, -50_000);
    assert_eq!(social.get_standing_score(3, 4), -10_000);
    assert_eq!(social.get_standing_score(5, 5), 10_000);
    social.set_standing(1, 2, -2000);
    assert_eq!(social.get_diplomatic_status(1, 2), DiplomaticStatus::Hostile);
}

#[test]
fn guild_rank_rules() {
    let mut guild = Guild::new(9, "Nine", "IX", 1, 10, 0);
    guild.add_member(2, 20, 1).unwrap();
    guild.add_member(3, 30, 1).unwrap();
    assert_eq!(guild.add_member(2, 20, 1), Err(SocialError::PlayerAlreadyInGuild));
    assert_eq!(guild.set_rank(1, 2, 8), Err(SocialError::InvalidRank));
    assert_eq!(guild.set_rank(2, 1, 0), Err(SocialError::CannotModifyGuildMaster));
    assert_eq!(guild.set_rank(2, 3, 0), Err(SocialError::PermissionDenied));
    assert_eq!(guild.set_rank(99, 3, 0), Err(SocialError::PlayerNotInGuild));
    assert_eq!(guild.remove_member(1), Err(SocialError::CannotModifyGuildMaster));
    assert_eq!(guild.remove_member(3).unwrap().character_id, 30);
    assert_eq!(guild.remove_member(3), Err(SocialError::PlayerNotInGuild));
}

#[test]
fn manager_registries_and_alliances() {
    let mut social = SocialManager::new();
    social.create_guild(Guild::new(1, "A", "A", 1, 1, 0)).unwrap();
    assert_eq!(
        social.create_guild(Guild::new(1, "B", "B", 2, 2, 0)),
        Err(SocialError::GuildAlreadyExists)
    );
    assert_eq!(social.get_guild(1).unwrap().name, "A");
    social.get_guild_mut(1).unwrap().alliance_id = Some(5);
    assert_eq!(social.get_guild(1).unwrap().alliance_id, Some(5));
    assert!(social.get_guild(2).is_none());

    let mut alliance = Alliance::new(5, "Pact", 1);
    assert!(alliance.contains_guild(1));
    alliance.add_guild(2).unwrap();
    assert_eq!(alliance.add_guild(2), Err(SocialError::GuildAlreadyInAlliance));
    assert_eq!(alliance.remove_guild(1), Err(SocialError::CannotModifyGuildMaster));
    alliance.remove_guild(2).unwrap();
    assert_eq!(alliance.remove_guild(2), Err(SocialError::GuildNotFound));
    social.create_alliance(alliance).unwrap();
    assert_eq!(
        social.create_alliance(Alliance::new(5, "Dup", 3)),
        Err(SocialError::GuildAlreadyExists)
    );
}
