use eidolon::adaptive_shard::AdaptiveShardManager;
use eidolon::error::WorldError;
use eidolon::predictive_migration::PredictiveSeamPredictor;

fn two_shard_world() -> AdaptiveShardManager {
    let mut shard_mgr = AdaptiveShardManager::new(4).unwrap();
    shard_mgr.assign_sector(0, 0, 0).unwrap();
    shard_mgr.assign_sector(1, 0, 1).unwrap();
    shard_mgr
}

// Same flow as the lifecycle scenario, with the projected sector (1, 0) given directly.
#[test]
fn test_predictive_pre_authentication_lifecycle() {
    let shard_mgr = two_shard_world();
    let mut predictor = PredictiveSeamPredictor::new(500, 30);
    assert_eq!(predictor.lookahead_millis(), 500);

    let token_opt = predictor.pre_authenticate_projected(42, 1, 0, 0, &shard_mgr, 100);
    assert!(token_opt.is_some());
    let token = token_opt.unwrap();
    assert_eq!(token.entity_id, 42);
    assert_eq!(token.source_shard, 0);
    assert_eq!(token.target_shard, 1);
    assert_eq!(token.target_sector_x, 1);
    assert_eq!(token.issued_tick, 100);
    assert_eq!(token.expiry_tick, 130);
    assert!(!token.is_consumed);

    let consume_res = predictor.validate_and_consume(token.token_id, 42, 1, 110);
    assert!(consume_res.is_ok());
    let consumed = consume_res.unwrap();
    assert!(consumed.is_consumed);

    let re_consume = predictor.validate_and_consume(token.token_id, 42, 1, 115);
    assert!(matches!(re_consume, Err(WorldError::PreAuthInvalid)));
}

#[test]
fn test_pre_auth_expiration() {
    let shard_mgr = two_shard_world();
    let mut predictor = PredictiveSeamPredictor::new(500, 10);
    let token = predictor
        .pre_authenticate_projected(99, 1, 0, 0, &shard_mgr, 100)
        .unwrap();
    let res = predictor.validate_and_consume(token.token_id, 99, 1, 115);
    assert!(matches!(res, Err(WorldError::PreAuthExpired)));
}

#[test]
fn pre_auth_reuses_live_token_and_skips_same_shard() {
    let shard_mgr = two_shard_world();
    let mut predictor = PredictiveSeamPredictor::default();
    // Staying on the source shard or heading to an unmapped sector issues nothing.
    assert!(predictor.pre_authenticate_projected(1, 0, 0, 0, &shard_mgr, 5).is_none());
    assert!(predictor.pre_authenticate_projected(1, 9, 9, 0, &shard_mgr, 5).is_none());
    let a = predictor.pre_authenticate_projected(1, 1, 0, 0, &shard_mgr, 5).unwrap();
    let b = predictor.pre_authenticate_projected(1, 1, 0, 0, &shard_mgr, 6).unwrap();
    assert_eq!(a, b);
    assert_eq!(a.token_id, 1);
    let c = predictor.pre_authenticate_projected(2, 1, 0, 0, &shard_mgr, 6).unwrap();
    assert_eq!(c.token_id, 2);
    // Wrong entity or shard is refused and does not consume the token.
    assert_eq!(predictor.validate_and_consume(a.token_id, 2, 1, 6), Err(WorldError::PreAuthInvalid));
    assert_eq!(predictor.validate_and_consume(a.token_id, 1, 3, 6), Err(WorldError::PreAuthInvalid));
    assert_eq!(predictor.validate_and_consume(77, 1, 1, 6), Err(WorldError::PreAuthInvalid));
    assert!(predictor.validate_and_consume(a.token_id, 1, 1, 6).is_ok());
}

#[test]
fn purge_frees_stale_tokens() {
    let shard_mgr = two_shard_world();
    let mut predictor = PredictiveSeamPredictor::new(500, 5);
    let a = predictor.pre_authenticate_projected(1, 1, 0, 0, &shard_mgr, 10).unwrap();
    predictor.purge_expired(100);
    assert_eq!(predictor.validate_and_consume(a.token_id, 1, 1, 12), Err(WorldError::PreAuthInvalid));
    let b = predictor.pre_authenticate_projected(1, 1, 0, 0, &shard_mgr, 20).unwrap();
    predictor.purge_expired(21);
    assert!(predictor.validate_and_consume(b.token_id, 1, 1, 21).is_ok());
}
