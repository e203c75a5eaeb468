use eidolon::voice_router::AcousticMaterial;

#[test]
fn cutoff_frequencies_follow_material_docs() {
    assert_eq!(AcousticMaterial::Stone.cutoff_frequency_hz(), 400);
    assert_eq!(AcousticMaterial::Wood.cutoff_frequency_hz(), 800);
    assert_eq!(AcousticMaterial::Metal.cutoff_frequency_hz(), 350);
    assert_eq!(AcousticMaterial::OpenOpening.cutoff_frequency_hz(), 3000);
    assert_eq!(AcousticMaterial::Foliage.cutoff_frequency_hz(), 5000);
}
