use top_docs::DocAddress;
use top_docs::TopDocs;
use top_docs::segment_reader::SegmentReader;

fn empty_reader() -> SegmentReader {
    SegmentReader { columns: vec![] }
}

/// Runs one collector over the given per-segment `(doc, key)` streams and
/// merges the harvests.
fn run(limit: usize, segments: &[&[(u32, u64)]]) -> Vec<(u64, DocAddress)> {
    let top_docs = TopDocs::with_limit(limit).unwrap();
    let reader = empty_reader();
    let mut fruits = Vec::new();
    for (ord, docs) in segments.iter().enumerate() {
        let mut segment = top_docs.for_segment(ord as u32, &reader).unwrap();
        for &(doc, key) in docs.iter() {
            segment.collect(doc, key);
        }
        fruits.push(segment.harvest());
    }
    top_docs.merge_fruits(fruits)
}

#[test]
fn test_harvest_holds_min_of_limit_and_collected() {
    // Fewer documents than the limit: all of them come back.
    assert_eq!(run(5, &[&[(0, 3), (1, 9)]]).len(), 2);
    // As many as the limit.
    assert_eq!(run(2, &[&[(0, 3), (1, 9)]]).len(), 2);
    // More than the limit: exactly the limit come back.
    assert_eq!(run(2, &[&[(0, 3), (1, 9), (2, 7), (3, 1)]]).len(), 2);
    // Nothing collected: an empty harvest.
    assert_eq!(run(3, &[&[]]).len(), 0);
    // No segments at all: an empty merge.
    assert_eq!(run(3, &[]).len(), 0);
}

#[test]
fn test_result_sorted_with_address_tie_break() {
    let result = run(
        6,
        &[
            &[(4, 10), (1, 10), (0, 20)],
            &[(2, 10), (3, 30)],
        ],
    );
    assert_eq!(
        result,
        vec![
            (30, DocAddress(1, 3)),
            (20, DocAddress(0, 0)),
            (10, DocAddress(0, 1)),
            (10, DocAddress(0, 4)),
            (10, DocAddress(1, 2)),
        ]
    );
}

#[test]
fn test_worst_entry_evicted_mid_stream() {
    let result = run(2, &[&[(0, 5), (1, 1), (2, 8), (3, 6)]]);
    assert_eq!(result, vec![(8, DocAddress(0, 2)), (6, DocAddress(0, 3))]);
}

#[test]
fn test_merge_truncates_to_limit() {
    let result = run(3, &[&[(0, 4), (1, 8)], &[(0, 6), (1, 2)], &[(0, 9)]]);
    assert_eq!(
        result,
        vec![(9, DocAddress(2, 0)), (8, DocAddress(0, 1)), (6, DocAddress(1, 0))]
    );
}

#[test]
fn test_merge_matches_monolithic_collection() {
    // The same documents, partitioned into segments one way or another,
    // rank identically to a single scan over all of them.
    let docs: [(u32, u32, u64); 7] =
        [(0, 0, 5), (0, 1, 12), (0, 2, 5), (1, 0, 40), (1, 1, 3), (2, 0, 12), (2, 1, 7)];
    for limit in 1..8usize {
        let top_docs = TopDocs::with_limit(limit).unwrap();
        let reader = empty_reader();

        // Per-segment collection followed by the merge.
        let mut fruits = Vec::new();
        for seg_ord in 0..3u32 {
            let mut segment = top_docs.for_segment(seg_ord, &reader).unwrap();
            for &(s, doc, key) in docs.iter() {
                if s == seg_ord {
                    segment.collect(doc, key);
                }
            }
            fruits.push(segment.harvest());
        }
        let merged = top_docs.merge_fruits(fruits);

        // One collector fed every document, in a different order, with the
        // addresses the segments would have produced.
        let monolithic = TopDocs::with_limit(limit).unwrap();
        let mut whole = Vec::new();
        for &(s, doc, key) in docs.iter().rev() {
            let mut segment = monolithic.for_segment(s, &reader).unwrap();
            segment.collect(doc, key);
            whole.push(segment.harvest());
        }
        let expected = monolithic.merge_fruits(whole);

        assert_eq!(merged, expected);
    }
}

#[test]
fn test_duplicate_hits_kept_independently() {
    let result = run(3, &[&[(1, 6), (1, 6), (0, 4)]]);
    assert_eq!(
        result,
        vec![(6, DocAddress(0, 1)), (6, DocAddress(0, 1)), (4, DocAddress(0, 0))]
    );
}
