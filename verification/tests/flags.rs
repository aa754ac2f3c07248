use q3bsp::texture_flags::{
    ContentFlags, SurfaceFlags, ALL_CONTENT_FLAGS, ALL_SURFACE_FLAGS, AREAPORTAL, DUST, LAVA,
    NODRAW, NODROP, SKY, SOLID3, WATER,
};

#[test]
fn empty_and_all() {
    assert_eq!(ContentFlags::empty().bits(), 0);
    assert_eq!(ContentFlags::all().bits(), ALL_CONTENT_FLAGS);
    assert_eq!(SurfaceFlags::empty().bits(), 0);
    assert_eq!(SurfaceFlags::all().bits(), ALL_SURFACE_FLAGS);
    assert_eq!(ALL_CONTENT_FLAGS, 0xFFFF_9399);
    assert_eq!(ALL_SURFACE_FLAGS, 0x7FFFF);
}

#[test]
fn unknown_bits_are_dropped() {
    let c = ContentFlags::from_bits_truncate(0xFFFF_FFFF);
    assert_eq!(c.bits(), ALL_CONTENT_FLAGS);
    let c = ContentFlags::from_bits_truncate(0x0000_0002 | WATER);
    assert_eq!(c.bits(), WATER);
    let s = SurfaceFlags::from_bits_truncate(0xFFF8_0000 | SKY);
    assert_eq!(s.bits(), SKY);
}

#[test]
fn truncating_twice_changes_nothing() {
    for b in [0u32, 1, 0x6000, 0xFFFF_FFFF, 0x1234_5678] {
        let once = ContentFlags::from_bits_truncate(b);
        assert_eq!(ContentFlags::from_bits_truncate(once.bits()), once);
        let once = SurfaceFlags::from_bits_truncate(b);
        assert_eq!(SurfaceFlags::from_bits_truncate(once.bits()), once);
    }
}

#[test]
fn membership() {
    let c = ContentFlags::from_bits_truncate(SOLID3 | LAVA | NODROP);
    assert!(c.contains(SOLID3));
    assert!(c.contains(SOLID3 | NODROP));
    assert!(!c.contains(WATER));
    assert!(!c.contains(SOLID3 | AREAPORTAL));
    assert!(c.contains(0));
    let s = SurfaceFlags::from_bits_truncate(DUST);
    assert!(s.contains(DUST));
    assert!(!s.contains(SKY));
}

#[test]
fn drawing_follows_nodraw() {
    assert!(SurfaceFlags::empty().should_draw());
    assert!(SurfaceFlags::from_bits_truncate(SKY).should_draw());
    assert!(!SurfaceFlags::from_bits_truncate(NODRAW).should_draw());
    assert!(!SurfaceFlags::all().should_draw());
}
