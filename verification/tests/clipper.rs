use memflow_native::region::{clip, NormalizedRegion, PageFlags};

fn flags() -> PageFlags {
    PageFlags { readable: true, writable: false, non_executable: true }
}

fn region(base: u64, size: u64) -> NormalizedRegion {
    NormalizedRegion { base, size, flags: flags() }
}

#[test]
fn clip_trims_both_edges() {
    assert_eq!(clip(region(100, 200), 150, 250), Some(region(150, 100)));
}

#[test]
fn clip_drops_disjoint_region() {
    assert_eq!(clip(region(100, 200), 500, 600), None);
    assert_eq!(clip(region(100, 200), 0, 50), None);
}

#[test]
fn clip_passes_exact_window() {
    assert_eq!(clip(region(100, 200), 100, 300), Some(region(100, 200)));
}

#[test]
fn clip_passes_region_inside_window() {
    assert_eq!(clip(region(100, 200), 0, 1000), Some(region(100, 200)));
}

#[test]
fn clip_trims_lower_edge_only() {
    assert_eq!(clip(region(100, 200), 150, 1000), Some(region(150, 150)));
}

#[test]
fn clip_trims_upper_edge_only() {
    assert_eq!(clip(region(100, 200), 0, 250), Some(region(100, 150)));
}

#[test]
fn clip_drops_region_that_touches_the_window() {
    assert_eq!(clip(region(100, 200), 300, 400), None);
    assert_eq!(clip(region(100, 200), 0, 100), None);
}

#[test]
fn clip_keeps_one_shared_address() {
    assert_eq!(clip(region(100, 200), 299, 400), Some(region(299, 1)));
    assert_eq!(clip(region(100, 200), 0, 101), Some(region(100, 1)));
}

#[test]
fn clip_drops_everything_for_an_empty_window() {
    assert_eq!(clip(region(100, 200), 150, 150), None);
    assert_eq!(clip(region(100, 200), 250, 150), None);
}

#[test]
fn clip_drops_an_empty_region() {
    assert_eq!(clip(region(100, 0), 0, 1000), None);
}

#[test]
fn clip_keeps_flags() {
    let odd = PageFlags { readable: true, writable: true, non_executable: false };
    let clipped = clip(NormalizedRegion { base: 0, size: 10, flags: odd }, 5, 8);
    assert_eq!(clipped, Some(NormalizedRegion { base: 5, size: 3, flags: odd }));
}

#[test]
fn clip_reaches_the_top_of_the_address_space() {
    let top = region(u64::MAX - 10, 10);
    assert_eq!(clip(top, 0, u64::MAX), Some(top));
    assert_eq!(clip(top, u64::MAX - 4, u64::MAX), Some(region(u64::MAX - 4, 4)));
}

#[test]
fn clip_is_idempotent() {
    let once = clip(region(100, 200), 150, 250).unwrap();
    assert_eq!(clip(once, 150, 250), Some(once));
}
