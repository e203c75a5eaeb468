use eidolon::error::WorldError;
use eidolon::hibernation::{compute_adler32, CharacterRecord, PlayerProfile};

#[test]
fn test_profile_hibernation_roundtrip() {
    let mut profile = PlayerProfile::new(9876543210);
    profile.player_level = 60;
    profile.premium_currency = 16000;
    profile.free_currency = 5000000;
    profile.pity.limited_banner_pity = 75;
    profile.pity.is_guaranteed_rate_up = true;

    profile
        .add_character(CharacterRecord {
            character_id: 1001,
            level: 90,
            ascension_tier: 6,
            constellation: 2,
        })
        .expect("add char 1");

    profile
        .add_character(CharacterRecord {
            character_id: 2002,
            level: 80,
            ascension_tier: 5,
            constellation: 0,
        })
        .expect("add char 2");

    let mut buffer = [0u8; 512];
    let written_len = profile
        .serialize_snapshot(1700000000, &mut buffer)
        .expect("serialize snapshot");

    assert!(written_len < 256);

    let hydrated =
        PlayerProfile::deserialize_snapshot(&buffer[..written_len]).expect("hydrate profile");

    assert_eq!(profile.account_id, hydrated.account_id);
    assert_eq!(profile.player_level, hydrated.player_level);
    assert_eq!(profile.premium_currency, hydrated.premium_currency);
    assert_eq!(profile.free_currency, hydrated.free_currency);
    assert_eq!(profile.pity, hydrated.pity);
    assert_eq!(profile.character_count, hydrated.character_count);
    assert_eq!(profile.roster, hydrated.roster);
}

#[test]
fn test_corrupted_snapshot_checksum_failure() {
    let mut profile = PlayerProfile::new(12345);
    profile.player_level = 10;
    let mut buffer = [0u8; 512];
    let len = profile
        .serialize_snapshot(1700000000, &mut buffer)
        .expect("serialize");

    buffer[35] ^= 0xFF;

    let result = PlayerProfile::deserialize_snapshot(&buffer[..len]);
    assert_eq!(result.unwrap_err(), WorldError::SnapshotCorrupted);
}

#[test]
fn adler32_known_values() {
    assert_eq!(compute_adler32(&[]), 1);
    assert_eq!(compute_adler32(b"Wikipedia"), 0x11E6_0398);
}

#[test]
fn snapshot_layout_and_header_fields() {
    let profile = PlayerProfile::new(0x0102_0304_0506_0708);
    let mut buffer = [0xAAu8; 512];
    let len = profile.serialize_snapshot(99, &mut buffer).unwrap();
    // 32-byte header plus the fixed 27-byte payload of an empty roster.
    assert_eq!(len, 59);
    assert_eq!(&buffer[0..4], &[0x45, 0x49, 0x48, 0x42]);
    assert_eq!(&buffer[4..6], &[0, 1]);
    assert_eq!(&buffer[6..14], &[1, 2, 3, 4, 5, 6, 7, 8]);
    assert_eq!(&buffer[22..26], &[0, 0, 0, 27]);
    // Bytes past the snapshot are untouched.
    assert_eq!(buffer[59], 0xAA);
}

#[test]
fn snapshot_rejects_small_buffer_and_bad_framing() {
    let profile = PlayerProfile::new(5);
    let mut small = [0u8; 100];
    assert!(matches!(
        profile.serialize_snapshot(1, &mut small),
        Err(WorldError::InvalidSnapshot(_))
    ));

    let mut buffer = [0u8; 512];
    let len = profile.serialize_snapshot(1, &mut buffer).unwrap();
    assert!(matches!(
        PlayerProfile::deserialize_snapshot(&buffer[..10]),
        Err(WorldError::InvalidSnapshot(_))
    ));
    let mut bad_magic = buffer;
    bad_magic[0] = 0;
    assert!(matches!(
        PlayerProfile::deserialize_snapshot(&bad_magic[..len]),
        Err(WorldError::InvalidSnapshot(_))
    ));
    let mut bad_version = buffer;
    bad_version[5] = 2;
    assert!(matches!(
        PlayerProfile::deserialize_snapshot(&bad_version[..len]),
        Err(WorldError::InvalidSnapshot(_))
    ));
    assert!(matches!(
        PlayerProfile::deserialize_snapshot(&buffer[..len - 1]),
        Err(WorldError::InvalidSnapshot(_))
    ));
}

#[test]
fn add_character_updates_in_place_and_fills_roster() {
    let mut profile = PlayerProfile::new(1);
    let rec = |id: u32, level: u16| CharacterRecord {
        character_id: id,
        level,
        ascension_tier: 0,
        constellation: 0,
    };
    profile.add_character(rec(7, 10)).unwrap();
    profile.add_character(rec(7, 20)).unwrap();
    assert_eq!(profile.character_count, 1);
    assert_eq!(profile.roster[0], Some(rec(7, 20)));
    for id in 100..131 {
        profile.add_character(rec(id, 1)).unwrap();
    }
    assert_eq!(profile.character_count, 32);
    assert!(matches!(
        profile.add_character(rec(999, 1)),
        Err(WorldError::InvalidSnapshot(_))
    ));
    assert_eq!(profile.character_count, 32);
}
