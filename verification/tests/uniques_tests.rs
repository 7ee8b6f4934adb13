use fsedump::uniques::{UniqueAggregator, UniqueCounts};

const CREATED: u32 = 0x0100_0000;
const MODIFIED: u32 = 0x1000_0000;
const REMOVED: u32 = 0x0200_0000;

#[test]
fn aggregates_counts_and_flags_per_path() {
    let mut agg = UniqueAggregator::new();
    agg.update("/a", CREATED);
    agg.update("/a", MODIFIED);
    agg.update("/b", REMOVED);
    let rows = agg.into_rows();
    assert_eq!(rows.len(), 2);
    assert_eq!(rows[0].path, "/a");
    assert_eq!(rows[0].counts, 2);
    assert_eq!(rows[0].flags, "Created | Modified");
    assert_eq!(rows[1].path, "/b");
    assert_eq!(rows[1].counts, 1);
    assert_eq!(rows[1].flags, "Removed");
}

#[test]
fn rows_are_sorted_by_case_folded_path() {
    // In raw byte order "/B" sorts before "/a"; case-folded it does not.
    let mut agg = UniqueAggregator::new();
    agg.update("/B/x", CREATED);
    agg.update("/a/y", MODIFIED);
    let rows = agg.into_rows();
    assert_eq!(rows.len(), 2);
    assert_eq!(rows[0].path, "/a/y");
    assert_eq!(rows[1].path, "/B/x");
}

#[test]
fn update_counts_and_ors_flags() {
    let mut c = UniqueCounts::default();
    assert_eq!(c.counts, 0);
    assert_eq!(c.flags, 0);
    c.update(CREATED);
    c.update(MODIFIED);
    assert_eq!(c.counts, 2);
    assert_eq!(c.flags, CREATED | MODIFIED);
}

#[test]
fn into_unique_out_renders_combined_flags() {
    let mut c = UniqueCounts::default();
    c.update(CREATED);
    c.update(REMOVED);
    let row = c.into_unique_out("/p".to_string());
    assert_eq!(row.path, "/p");
    assert_eq!(row.counts, 2);
    assert_eq!(row.flags, "Created | Removed");
    assert_eq!(row.alt_flags, "FolderEvent | Mount");
}

#[test]
fn distinct_paths_keep_distinct_summaries() {
    let mut agg = UniqueAggregator::new();
    for i in 0..10u32 {
        agg.update(&format!("/p{}", i), CREATED);
        agg.update(&format!("/p{}", i), MODIFIED);
    }
    let rows = agg.into_rows();
    assert_eq!(rows.len(), 10);
    for row in rows {
        assert_eq!(row.counts, 2);
        assert_eq!(row.flags, "Created | Modified");
    }
}
