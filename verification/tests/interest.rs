use eidolon::aoi::{
    calculate_relevance_score, EntityRelation, ObserverInterestSet, RelevanceWeights,
    VisibilityEvent, MAX_AOI_RADIUS_SQ,
};
use eidolon::tier::{FrequencyTier, FIXED_ONE};

fn sq(metres: i64) -> i64 {
    metres * metres * FIXED_ONE
}

#[test]
fn test_observer_visibility_lifecycle_and_hysteresis() {
    let mut observer_interest = ObserverInterestSet::with_capacity(100);

    // Entity 1 at 8 m, entity 2 at 25 m; entity 3 at 60 m lies outside the 50 m query.
    let candidates = [(1u32, sq(8)), (2u32, sq(25))];
    assert_eq!(candidates.len(), 2, "Entities 1 and 2 must be within 50m AoI");

    let mut events = [VisibilityEvent::Exit { entity_id: 0 }; 16];
    let event_count = observer_interest.update_visibility(&candidates, &mut events);
    assert_eq!(event_count, 2);
    assert!(events[..event_count].contains(&VisibilityEvent::Enter {
        entity_id: 1,
        tier: FrequencyTier::Immediate,
    }));
    assert!(events[..event_count].contains(&VisibilityEvent::Enter {
        entity_id: 2,
        tier: FrequencyTier::Mid,
    }));

    // Entity 1 moves to 10 m: within the deadband, stays Immediate.
    let candidates = [(1u32, sq(10)), (2u32, sq(25))];
    let event_count = observer_interest.update_visibility(&candidates, &mut events);
    assert_eq!(
        event_count, 0,
        "Entity 1 within hysteresis deadband must not emit tier change event"
    );

    // Entity 1 moves to 12 m: past 121 m^2, demoted to Mid.
    let candidates = [(1u32, sq(12)), (2u32, sq(25))];
    let event_count = observer_interest.update_visibility(&candidates, &mut events);
    assert_eq!(event_count, 1);
    assert_eq!(
        events[0],
        VisibilityEvent::TierChange {
            entity_id: 1,
            tier: FrequencyTier::Mid,
        }
    );

    // Entity 2 moves to 55 m: the query no longer finds it, so it exits.
    let candidates = [(1u32, sq(12))];
    let event_count = observer_interest.update_visibility(&candidates, &mut events);
    assert_eq!(event_count, 1);
    assert_eq!(events[0], VisibilityEvent::Exit { entity_id: 2 });
}

#[test]
fn interest_set_skips_candidates_beyond_radius_and_keeps_ids_sorted() {
    let mut set = ObserverInterestSet::with_capacity(8);
    assert_eq!(set.max_radius_sq(), MAX_AOI_RADIUS_SQ);
    let candidates = [(9u32, sq(5)), (3u32, sq(60)), (4u32, sq(30)), (1u32, sq(49))];
    let mut events = [VisibilityEvent::Exit { entity_id: 0 }; 8];
    let n = set.update_visibility(&candidates, &mut events);
    assert_eq!(n, 3);
    assert_eq!(set.visible_entities(), &[1, 4, 9]);
    assert_eq!(
        set.visible_tiers(),
        &[FrequencyTier::Mid, FrequencyTier::Mid, FrequencyTier::Immediate]
    );
    assert!(set.contains(4));
    assert!(!set.contains(3));
    assert_eq!(set.len(), 3);
}

#[test]
fn interest_set_respects_capacity_and_event_buffer() {
    let mut set = ObserverInterestSet::with_capacity(2);
    let candidates = [(5u32, sq(1)), (6u32, sq(2)), (7u32, sq(3))];
    let mut events = [VisibilityEvent::Exit { entity_id: 0 }; 2];
    let n = set.update_visibility(&candidates, &mut events);
    // Three entries are reported, but only two fit; the third entity is not tracked.
    assert_eq!(n, 2);
    assert_eq!(events[0], VisibilityEvent::Enter { entity_id: 5, tier: FrequencyTier::Immediate });
    assert_eq!(events[1], VisibilityEvent::Enter { entity_id: 6, tier: FrequencyTier::Immediate });
    assert_eq!(set.visible_entities(), &[5, 6]);

    // Everything leaves: exits come in id order.
    let mut events = [VisibilityEvent::Exit { entity_id: 0 }; 4];
    let n = set.update_visibility(&[], &mut events);
    assert_eq!(n, 2);
    assert_eq!(events[0], VisibilityEvent::Exit { entity_id: 5 });
    assert_eq!(events[1], VisibilityEvent::Exit { entity_id: 6 });
    assert!(set.is_empty());
}

#[test]
fn relevance_score_combines_falloff_and_bonuses() {
    let w = RelevanceWeights::default_weights();
    let none = EntityRelation::default();
    assert_eq!(calculate_relevance_score(99, none, &w), 1_000_000);
    let target = EntityRelation { is_target: true, ..EntityRelation::default() };
    assert_eq!(calculate_relevance_score(99, target, &w), 3_000_000);
    let all = EntityRelation { is_party: true, is_target: true, is_threat: true, is_guild: true };
    assert_eq!(calculate_relevance_score(-5, all, &w), 100_000_000 + 3_600_000);
    assert!(calculate_relevance_score(10, none, &w) >= calculate_relevance_score(11, none, &w));
}

#[test]
fn ranked_update_keeps_best_scored_candidates() {
    let mut set = ObserverInterestSet::with_capacity(2);
    let none = EntityRelation::default();
    let target = EntityRelation { is_target: true, ..EntityRelation::default() };
    let candidates = [(30u32, sq(10)), (20u32, sq(2)), (10u32, sq(1))];
    let relations = [none, none, none];
    let mut events = [VisibilityEvent::Exit { entity_id: 0 }; 8];
    let n = set.update_visibility_ranked(&candidates, &relations, &mut events);
    assert_eq!(n, 2);
    assert_eq!(events[0], VisibilityEvent::Enter { entity_id: 10, tier: FrequencyTier::Immediate });
    assert_eq!(events[1], VisibilityEvent::Enter { entity_id: 20, tier: FrequencyTier::Immediate });
    assert_eq!(set.visible_entities(), &[10, 20]);

    // A far but targeted entity outranks a nearer neutral one.
    let mut set = ObserverInterestSet::with_capacity(1);
    let candidates = [(6u32, sq(20)), (5u32, sq(50))];
    let relations = [none, target];
    let n = set.update_visibility_ranked(&candidates, &relations, &mut events);
    assert_eq!(n, 1);
    assert_eq!(events[0], VisibilityEvent::Enter { entity_id: 5, tier: FrequencyTier::Mid });
    assert_eq!(set.visible_entities(), &[5]);
}
