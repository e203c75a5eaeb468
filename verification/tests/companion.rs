use eidolon::companion::{
    AssetManifestDigest, PatchNegotiationState, PatchNegotiator, ZoneAssetRequirement,
};
use eidolon::error::ZoneId;

#[test]
fn test_companion_patch_negotiation_happy_path() {
    let digest_v1 = AssetManifestDigest::from_version(100);
    let req = ZoneAssetRequirement::new(ZoneId(1), 42, digest_v1, 0);
    let mut negotiator = PatchNegotiator::new(req);

    assert_eq!(negotiator.state(), PatchNegotiationState::CheckingVersion);
    assert!(!negotiator.is_synchronized());

    assert!(negotiator.evaluate_client_manifest(digest_v1));
    assert!(negotiator.is_synchronized());
}

#[test]
fn test_companion_patch_delta_negotiation_flow() {
    let digest_v1 = AssetManifestDigest::from_version(100);
    let digest_v2 = AssetManifestDigest::from_version(101);

    let req = ZoneAssetRequirement::new(ZoneId(2), 55, digest_v2, 10240);
    let mut negotiator = PatchNegotiator::new(req);

    assert!(!negotiator.evaluate_client_manifest(digest_v1));
    match negotiator.state() {
        PatchNegotiationState::DeltaRequired {
            target_digest,
            delta_bytes,
        } => {
            assert_eq!(target_digest, digest_v2);
            assert_eq!(delta_bytes, 10240);
        }
        _ => panic!("Expected DeltaRequired state"),
    }

    assert!(negotiator.update_progress(50).is_ok());
    assert_eq!(
        negotiator.state(),
        PatchNegotiationState::ApplyingPatch { progress_pct: 50 }
    );

    let wrong_digest = AssetManifestDigest::from_version(999);
    assert!(!negotiator.complete_patch(wrong_digest).expect("verify"));
    assert!(!negotiator.is_synchronized());

    assert!(negotiator.complete_patch(digest_v2).expect("verify"));
    assert!(negotiator.is_synchronized());
}

#[test]
fn version_digest_layout_and_progress_rules() {
    let d = AssetManifestDigest::from_version(0x0102_0304);
    assert_eq!(
        d.as_bytes(),
        &[4, 3, 2, 1, 0x45, 0x49, 0x50, 0x4B, 0, 0, 0, 0, 0, 0, 0, 0]
    );
    assert!(d.matches(&AssetManifestDigest::new(*d.as_bytes())));
    let req = ZoneAssetRequirement::new(ZoneId(3), 1, d, 5);
    let mut n = PatchNegotiator::new(req);
    assert!(n.update_progress(10).is_err());
    n.evaluate_client_manifest(AssetManifestDigest::from_version(1));
    n.update_progress(250).unwrap();
    assert_eq!(n.state(), PatchNegotiationState::ApplyingPatch { progress_pct: 100 });
}
