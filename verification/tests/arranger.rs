use rhythm_engine::harmonizer::arranger::{ChannelCoverage, Condensed, CoverageRange, Sources};

#[test]
fn coverage_range_contains_its_ends() {
    let range = CoverageRange::new(3, 7);
    assert!(range.contains(3));
    assert!(range.contains(5));
    assert!(range.contains(7));
    assert!(!range.contains(2));
    assert!(!range.contains(8));
}

#[test]
fn coverage_range_single_index() {
    let range = CoverageRange::new(0, 0);
    assert!(range.contains(0));
    assert!(!range.contains(1));
}

#[test]
fn contiguous_union_of_adjacent_ranges() {
    let a = CoverageRange::new(0, 3);
    let b = CoverageRange::new(4, 6);
    assert_eq!(a.contiguous_union(b), Some(CoverageRange::new(0, 6)));
    assert_eq!(b.contiguous_union(a), Some(CoverageRange::new(0, 6)));
}

#[test]
fn contiguous_union_of_overlapping_ends() {
    let a = CoverageRange::new(2, 5);
    let b = CoverageRange::new(5, 9);
    assert_eq!(a.contiguous_union(b), Some(CoverageRange::new(2, 9)));
}

#[test]
fn contiguous_union_of_distant_ranges() {
    let a = CoverageRange::new(0, 2);
    let b = CoverageRange::new(4, 6);
    assert_eq!(a.contiguous_union(b), None);
    assert_eq!(b.contiguous_union(a), None);
}

#[test]
fn contiguous_union_ignores_nested_ranges() {
    // Only a start lying next to the other's end joins two ranges.
    let outer = CoverageRange::new(0, 10);
    let inner = CoverageRange::new(3, 4);
    assert_eq!(outer.contiguous_union(inner), None);
}

#[test]
fn contiguous_union_at_byte_limits() {
    let a = CoverageRange::new(0, 254);
    let b = CoverageRange::new(255, 255);
    assert_eq!(a.contiguous_union(b), Some(CoverageRange::new(0, 255)));
}

#[test]
fn condensed_sorts_and_joins() {
    let mut ranges = vec![
        CoverageRange::new(10, 12),
        CoverageRange::new(0, 2),
        CoverageRange::new(3, 4),
        CoverageRange::new(20, 20),
    ];
    Condensed::ensure(&mut ranges);
    assert_eq!(
        ranges,
        vec![CoverageRange::new(0, 4), CoverageRange::new(10, 12), CoverageRange::new(20, 20)]
    );
}

#[test]
fn condensed_drops_consecutive_repeats() {
    let mut ranges = vec![CoverageRange::new(0, 5), CoverageRange::new(0, 5), CoverageRange::new(9, 9)];
    Condensed::ensure(&mut ranges);
    assert_eq!(ranges, vec![CoverageRange::new(0, 5), CoverageRange::new(9, 9)]);
}

#[test]
fn condensed_keeps_repeats_that_are_not_consecutive() {
    // Repeats are dropped before sorting, so two equal ranges that were apart
    // end up side by side and, not touching, both stay.
    let mut ranges = vec![CoverageRange::new(0, 5), CoverageRange::new(9, 9), CoverageRange::new(0, 5)];
    Condensed::ensure(&mut ranges);
    assert_eq!(
        ranges,
        vec![CoverageRange::new(0, 5), CoverageRange::new(0, 5), CoverageRange::new(9, 9)]
    );
}

#[test]
fn condensed_empty() {
    let mut ranges: Vec<CoverageRange> = vec![];
    Condensed::ensure(&mut ranges);
    assert!(ranges.is_empty());
}

#[test]
fn condensed_chains_several_joins() {
    let mut ranges = vec![
        CoverageRange::new(6, 8),
        CoverageRange::new(3, 5),
        CoverageRange::new(0, 2),
    ];
    Condensed::ensure(&mut ranges);
    assert_eq!(ranges, vec![CoverageRange::new(0, 8)]);
}

#[test]
fn channel_coverage_iter_lists_each_index() {
    let coverage = ChannelCoverage::new(vec![CoverageRange::new(5, 6), CoverageRange::new(0, 1)]);
    assert_eq!(coverage.iter(), vec![0, 1, 5, 6]);
    assert_eq!(coverage.ranges(), &vec![CoverageRange::new(0, 1), CoverageRange::new(5, 6)]);
}

#[test]
fn channel_coverage_single_channel() {
    let coverage = ChannelCoverage::new(vec![CoverageRange::new(0, 0)]);
    assert_eq!(coverage.iter(), vec![0]);
}

#[test]
fn channel_coverage_whole_table() {
    let coverage = ChannelCoverage::new(vec![CoverageRange::new(0, 255)]);
    let indices = coverage.iter();
    assert_eq!(indices.len(), 256);
    assert_eq!(indices[0], 0);
    assert_eq!(indices[255], 255);
}

#[test]
fn sources_pick() {
    let with_delegate = Sources { main: 1u32, delegation: Some(2u32) };
    let without = Sources { main: 1u32, delegation: None };
    assert_eq!(with_delegate.pick(false), 1);
    assert_eq!(with_delegate.pick(true), 2);
    assert_eq!(without.pick(true), 1);
    assert_eq!(without.pick(false), 1);
}
