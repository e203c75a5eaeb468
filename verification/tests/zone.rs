use eidolon::tier::FIXED_ONE;
use eidolon::zone::{FixedVec3, SeamAxis, ZoneBounds};

fn metres(v: i64) -> i64 {
    v * FIXED_ONE
}

fn pos(x: i64, y: i64, z: i64) -> FixedVec3 {
    FixedVec3 { x: metres(x), y: metres(y), z: metres(z) }
}

#[test]
fn test_zone_bounds_and_seam_detection() {
    // Zone A: X in [0, 100], Seam along East edge X in [84, 100] (16m wide)
    let bounds = ZoneBounds::new(
        metres(0),
        metres(100),
        metres(0),
        metres(100),
        SeamAxis::EastWest,
        metres(84),
        metres(100),
    );

    assert_eq!(bounds.seam_midpoint(), metres(92));

    // Inside zone, outside seam
    let p1 = pos(50, 0, 50);
    assert!(bounds.contains(p1));
    assert!(!bounds.in_seam(p1));

    // Inside seam, before midpoint
    let p2 = pos(88, 0, 50);
    assert!(bounds.contains(p2));
    assert!(bounds.in_seam(p2));
    assert!(!bounds.is_past_midpoint(p2, true));

    // Inside seam, past midpoint (>= 92)
    let p3 = pos(94, 0, 50);
    assert!(bounds.contains(p3));
    assert!(bounds.in_seam(p3));
    assert!(bounds.is_past_midpoint(p3, true));
}

#[test]
fn north_south_seam_uses_z_and_negative_direction() {
    let bounds = ZoneBounds::new(
        metres(0),
        metres(100),
        metres(-50),
        metres(50),
        SeamAxis::NorthSouth,
        metres(-8),
        metres(8),
    );
    assert_eq!(bounds.seam_midpoint(), 0);
    let p = pos(500, 3, -4);
    assert!(!bounds.contains(p));
    assert!(bounds.in_seam(p));
    assert!(bounds.is_past_midpoint(p, false));
    assert!(!bounds.is_past_midpoint(p, true));
    assert!(!bounds.in_seam(pos(0, 0, 9)));
    assert!(bounds.contains(pos(100, 0, -50)));
    // Odd raw sums round towards negative infinity.
    let odd = ZoneBounds::new(0, 0, 0, 0, SeamAxis::EastWest, -3, 0);
    assert_eq!(odd.seam_midpoint(), -2);
}
