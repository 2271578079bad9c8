use itertools::Itertools;
use memflow_native::mapping::{Backing, RawMapping};
use memflow_native::modules::{coalesce_modules, merge_modules};
use memflow_native::ranges::{coalesce_ranges, merge_ranges};
use memflow_native::region::{NormalizedRegion, PageFlags, PERM_NONE, PERM_READ, PERM_WRITE};

const RO: PageFlags = PageFlags { readable: true, writable: false, non_executable: true };
const RW: PageFlags = PageFlags { readable: true, writable: true, non_executable: true };

fn file_backing(path: &str, name: &str) -> Backing {
    Backing::File { path: Some(path.to_string()), file_name: Some(name.to_string()) }
}

fn file(start: u64, end: u64, dev: (i32, i32), inode: u64, offset: u64) -> RawMapping {
    RawMapping {
        start,
        end,
        perms: PERM_READ,
        offset,
        dev,
        inode,
        backing: file_backing("/usr/lib/liba.so", "liba.so"),
    }
}

fn anonymous(start: u64, end: u64) -> RawMapping {
    RawMapping {
        start,
        end,
        perms: PERM_READ | PERM_WRITE,
        offset: 0,
        dev: (0, 0),
        inode: 0,
        backing: Backing::Anonymous,
    }
}

fn region(base: u64, size: u64, flags: PageFlags) -> NormalizedRegion {
    NormalizedRegion { base, size, flags }
}

#[test]
fn modules_of_nothing_are_nothing() {
    assert_eq!(coalesce_modules(&vec![]), vec![]);
}

#[test]
fn single_file_mapping_is_one_module() {
    let maps = vec![file(0x1000, 0x2000, (8, 1), 42, 0)];
    assert_eq!(coalesce_modules(&maps), maps);
}

#[test]
fn contiguous_mappings_of_one_file_merge() {
    let maps = vec![file(0, 100, (8, 1), 42, 0), file(100, 200, (8, 1), 42, 0x1000)];
    let modules = coalesce_modules(&maps);
    assert_eq!(modules.len(), 1);
    assert_eq!(modules[0].start, 0);
    assert_eq!(modules[0].end, 200);
    assert_eq!(modules[0].end - modules[0].start, 100 + 100);
    assert_eq!(modules[0].perms, PERM_NONE);
    assert_eq!(modules[0].offset, 0);
    assert_eq!(modules[0].dev, (8, 1));
    assert_eq!(modules[0].inode, 42);
    assert_eq!(modules[0].backing, file_backing("/usr/lib/liba.so", "liba.so"));
}

#[test]
fn file_offset_plays_no_part_in_merging() {
    let maps = vec![file(0, 100, (8, 1), 42, 0x5000), file(100, 200, (8, 1), 42, 0)];
    let modules = coalesce_modules(&maps);
    assert_eq!(modules.len(), 1);
    assert_eq!(modules[0].offset, 0x5000);
}

#[test]
fn a_hole_keeps_mappings_apart() {
    let maps = vec![file(0, 100, (8, 1), 42, 0), file(101, 200, (8, 1), 42, 0)];
    assert_eq!(coalesce_modules(&maps), maps);
}

#[test]
fn another_inode_keeps_mappings_apart() {
    let maps = vec![file(0, 100, (8, 1), 42, 0), file(100, 200, (8, 1), 43, 0)];
    assert_eq!(coalesce_modules(&maps), maps);
}

#[test]
fn another_device_keeps_mappings_apart() {
    let maps = vec![file(0, 100, (8, 1), 42, 0), file(100, 200, (8, 2), 42, 0)];
    assert_eq!(coalesce_modules(&maps), maps);
    let maps = vec![file(0, 100, (8, 1), 42, 0), file(100, 200, (9, 1), 42, 0)];
    assert_eq!(coalesce_modules(&maps), maps);
}

#[test]
fn mappings_without_a_file_are_left_out() {
    let maps = vec![
        anonymous(0, 50),
        file(100, 200, (8, 1), 42, 0),
        anonymous(200, 300),
        file(300, 400, (8, 1), 42, 0),
    ];
    let modules = coalesce_modules(&maps);
    assert_eq!(modules, vec![file(100, 200, (8, 1), 42, 0), file(300, 400, (8, 1), 42, 0)]);
}

#[test]
fn a_mapping_left_out_does_not_keep_its_neighbours_apart() {
    let maps =
        vec![file(100, 200, (8, 1), 42, 0), anonymous(500, 600), file(200, 300, (8, 1), 42, 0)];
    let modules = coalesce_modules(&maps);
    assert_eq!(modules.len(), 1);
    assert_eq!((modules[0].start, modules[0].end), (100, 300));
}

#[test]
fn three_contiguous_mappings_become_one_module() {
    let maps = vec![
        file(0, 100, (8, 1), 42, 0),
        file(100, 200, (8, 1), 42, 0),
        file(200, 350, (8, 1), 42, 0),
    ];
    let modules = coalesce_modules(&maps);
    assert_eq!(modules.len(), 1);
    assert_eq!((modules[0].start, modules[0].end), (0, 350));
}

#[test]
fn module_coalescing_is_idempotent() {
    let maps = vec![
        file(0, 100, (8, 1), 42, 0),
        file(100, 200, (8, 1), 42, 0),
        anonymous(200, 300),
        file(300, 400, (8, 1), 7, 0),
        file(400, 500, (8, 1), 7, 0),
        file(500, 600, (8, 1), 42, 0),
    ];
    let once = coalesce_modules(&maps);
    assert_eq!(once.len(), 3);
    assert_eq!(coalesce_modules(&once), once);
}

#[test]
fn merge_modules_hands_both_back_when_they_do_not_join() {
    let a = file(0, 100, (8, 1), 42, 0);
    let b = file(200, 300, (8, 1), 42, 0);
    assert_eq!(merge_modules(a.clone(), b.clone()), Err((a, b)));
}

#[test]
fn module_coalescing_agrees_with_itertools() {
    let maps = vec![
        file(0, 100, (8, 1), 42, 0),
        file(100, 200, (8, 1), 42, 0),
        anonymous(200, 300),
        file(200, 250, (8, 1), 42, 0),
        file(300, 400, (8, 1), 7, 0),
        file(400, 500, (8, 2), 7, 0),
        file(500, 600, (8, 2), 7, 0),
    ];
    let expected: Vec<RawMapping> = maps
        .iter()
        .filter(|m| m.backing.file_backed())
        .cloned()
        .coalesce(|a, b| merge_modules(a, b))
        .collect();
    assert_eq!(coalesce_modules(&maps), expected);
    assert_eq!(expected.len(), 3);
}

#[test]
fn ranges_of_nothing_are_nothing() {
    assert_eq!(coalesce_ranges(&vec![], 0), vec![]);
}

#[test]
fn single_range_stays() {
    assert_eq!(coalesce_ranges(&vec![region(10, 5, RO)], 0), vec![region(10, 5, RO)]);
}

#[test]
fn adjacent_ranges_merge_without_tolerance() {
    let regions = vec![region(0, 100, RO), region(100, 50, RO)];
    assert_eq!(coalesce_ranges(&regions, 0), vec![region(0, 150, RO)]);
}

#[test]
fn ranges_within_the_tolerance_merge() {
    let regions = vec![region(0, 100, RO), region(110, 100, RO)];
    assert_eq!(coalesce_ranges(&regions, 10), vec![region(0, 210, RO)]);
    assert_eq!(coalesce_ranges(&regions, 11), vec![region(0, 210, RO)]);
}

#[test]
fn ranges_beyond_the_tolerance_stay_apart() {
    let regions = vec![region(0, 100, RO), region(110, 100, RO)];
    assert_eq!(coalesce_ranges(&regions, 9), regions);
    assert_eq!(coalesce_ranges(&regions, 0), regions);
}

#[test]
fn different_flags_keep_ranges_apart() {
    let regions = vec![region(0, 100, RO), region(100, 100, RW)];
    assert_eq!(coalesce_ranges(&regions, 1000), regions);
}

#[test]
fn negative_tolerance_never_merges() {
    let regions = vec![region(0, 100, RO), region(100, 100, RO), region(200, 100, RO)];
    assert_eq!(coalesce_ranges(&regions, -1), regions);
    assert_eq!(coalesce_ranges(&regions, i64::MIN), regions);
}

#[test]
fn the_accumulator_grows_as_it_merges() {
    let regions =
        vec![region(0, 10, RO), region(15, 10, RO), region(30, 10, RO), region(50, 10, RO)];
    assert_eq!(coalesce_ranges(&regions, 5), vec![region(0, 40, RO), region(50, 10, RO)]);
}

#[test]
fn merging_keeps_the_flags_of_the_first() {
    let merged = merge_ranges(region(0, 10, RW), region(10, 10, RW), 0);
    assert_eq!(merged, Ok(region(0, 20, RW)));
}

#[test]
fn merge_ranges_hands_both_back_when_they_do_not_join() {
    let a = region(0, 10, RO);
    let b = region(20, 10, RO);
    assert_eq!(merge_ranges(a, b, 9), Err((a, b)));
    assert_eq!(merge_ranges(a, b, 10), Ok(region(0, 30, RO)));
}

#[test]
fn a_range_is_never_merged_into_one_that_starts_later() {
    let a = region(100, 10, RO);
    let b = region(50, 10, RO);
    assert_eq!(merge_ranges(a, b, 1000), Err((a, b)));
}

#[test]
fn a_range_that_starts_inside_the_first_joins_it() {
    let a = region(0, 100, RO);
    assert_eq!(merge_ranges(a, region(50, 100, RO), 0), Ok(region(0, 150, RO)));
    assert_eq!(merge_ranges(a, region(0, 10, RO), 0), Ok(region(0, 10, RO)));
    assert_eq!(merge_ranges(a, region(10, 40, RO), 0), Ok(region(0, 50, RO)));
}

#[test]
fn huge_tolerance_near_the_top_of_the_address_space() {
    let a = region(u64::MAX - 100, 10, RO);
    let b = region(u64::MAX - 50, 50, RO);
    assert_eq!(merge_ranges(a, b, i64::MAX), Ok(region(u64::MAX - 100, 100, RO)));
}

#[test]
fn range_coalescing_is_idempotent() {
    let regions = vec![
        region(0, 10, RO),
        region(12, 10, RO),
        region(22, 10, RW),
        region(40, 10, RW),
        region(100, 10, RO),
        region(111, 5, RO),
    ];
    for gap in [-1i64, 0, 1, 2, 8, 50, 1000] {
        let once = coalesce_ranges(&regions, gap);
        assert_eq!(coalesce_ranges(&once, gap), once);
    }
}

#[test]
fn range_coalescing_agrees_with_itertools() {
    let regions = vec![
        region(0, 10, RO),
        region(12, 10, RO),
        region(22, 10, RW),
        region(40, 10, RW),
        region(100, 10, RO),
        region(111, 5, RO),
    ];
    for gap in [-1i64, 0, 1, 2, 8, 50, 1000] {
        let expected: Vec<NormalizedRegion> =
            regions.iter().copied().coalesce(|a, b| merge_ranges(a, b, gap)).collect();
        assert_eq!(coalesce_ranges(&regions, gap), expected);
    }
}
