use top_docs::CollectorError;
use top_docs::DocAddress;
use top_docs::TopDocs;
use top_docs::segment_reader::FastFieldColumn;
use top_docs::segment_reader::SegmentReader;

/// Order-preserving key encoding for the positive scores these tests use.
fn score_key(score: f32) -> u64 {
    score.to_bits() as u64
}

fn key_score(key: u64) -> f32 {
    f32::from_bits(key as u32)
}

fn empty_reader() -> SegmentReader {
    SegmentReader { columns: vec![] }
}

/// One segment, three scored documents, as a query matching all of them
/// would feed the collector in scan order.
fn collect_scored_segment(top_docs: &TopDocs) -> Vec<(u64, DocAddress)> {
    let reader = empty_reader();
    let mut segment = top_docs.for_segment(0, &reader).unwrap();
    segment.collect(0, score_key(0.48527452));
    segment.collect(1, score_key(0.81221175));
    segment.collect(2, score_key(0.5376842));
    segment.harvest()
}

#[test]
fn test_top_collector_not_at_capacity() {
    let top_docs = TopDocs::with_limit(4).unwrap();
    let fruit = collect_scored_segment(&top_docs);
    let score_docs: Vec<(f32, DocAddress)> = top_docs
        .merge_fruits(vec![fruit])
        .into_iter()
        .map(|(k, d)| (key_score(k), d))
        .collect();
    assert_eq!(
        score_docs,
        vec![
            (0.81221175, DocAddress(0u32, 1)),
            (0.5376842, DocAddress(0u32, 2)),
            (0.48527452, DocAddress(0, 0))
        ]
    );
}

#[test]
fn test_top_collector_at_capacity() {
    let top_docs = TopDocs::with_limit(2).unwrap();
    let fruit = collect_scored_segment(&top_docs);
    let score_docs: Vec<(f32, DocAddress)> = top_docs
        .merge_fruits(vec![fruit])
        .into_iter()
        .map(|(k, d)| (key_score(k), d))
        .collect();
    assert_eq!(
        score_docs,
        vec![(0.81221175, DocAddress(0u32, 1)), (0.5376842, DocAddress(0u32, 2))]
    );
}

#[test]
fn test_top_0() {
    assert!(matches!(TopDocs::with_limit(0), Err(CollectorError::InvalidArgument)));
}

const TITLE: u32 = 0;
const SIZE: u32 = 1;

/// A segment whose `SIZE` column is open to random access.
fn sized_reader(fast: bool, sizes: Vec<u64>) -> SegmentReader {
    SegmentReader { columns: vec![FastFieldColumn { field: SIZE, fast, values: sizes }] }
}

#[test]
fn test_top_field_collector_not_at_capacity() {
    let reader = sized_reader(true, vec![12u64, 64u64, 16u64]);
    let top_collector = TopDocs::with_limit(4).unwrap().order_by_field(SIZE);
    let mut segment = top_collector.for_segment(0, &reader).unwrap();
    segment.collect(0, score_key(1.0));
    segment.collect(1, score_key(1.0));
    segment.collect(2, score_key(1.0));
    let fruit = segment.harvest();
    let top_docs: Vec<(u64, DocAddress)> = top_collector.merge_fruits(vec![fruit]);
    assert_eq!(
        top_docs,
        vec![(64, DocAddress(0, 1)), (16, DocAddress(0, 2)), (12, DocAddress(0, 0))]
    );
}

#[test]
#[should_panic]
fn test_field_does_not_exist() {
    let reader = sized_reader(true, vec![12u64]);
    let top_collector = TopDocs::with_limit(4).unwrap().order_by_field(2);
    top_collector.for_segment(0, &reader).expect("should panic");
}

#[test]
fn test_field_not_fast_field() {
    let reader = sized_reader(false, vec![12u64]);
    let top_collector = TopDocs::with_limit(4).unwrap().order_by_field(SIZE);
    let err = top_collector.for_segment(0, &reader).map(|_| ()).unwrap_err();
    assert!(matches!(err, CollectorError::SchemaError));
}

#[test]
fn test_field_collector_prefers_title_field_absence_over_title_presence() {
    // A column for another field does not satisfy an order-by on SIZE.
    let reader = SegmentReader {
        columns: vec![FastFieldColumn { field: TITLE, fast: true, values: vec![7u64] }],
    };
    let top_collector = TopDocs::with_limit(1).unwrap().order_by_field(SIZE);
    assert!(top_collector.for_segment(0, &reader).is_err());
}

#[test]
fn test_field_collector_lenient_past_end() {
    // Documents beyond the column's end read as zero rather than failing.
    let reader = sized_reader(true, vec![42u64]);
    let top_collector = TopDocs::with_limit(3).unwrap().order_by_field(SIZE);
    let mut segment = top_collector.for_segment(0, &reader).unwrap();
    segment.collect(0, score_key(1.0));
    segment.collect(5, score_key(1.0));
    let fruit = segment.harvest();
    let top_docs: Vec<(u64, DocAddress)> = top_collector.merge_fruits(vec![fruit]);
    assert_eq!(top_docs, vec![(42, DocAddress(0, 0)), (0, DocAddress(0, 5))]);
}

#[test]
fn test_requires_scoring() {
    let top_docs = TopDocs::with_limit(1).unwrap();
    assert!(top_docs.requires_scoring());
    let tweaked = TopDocs::with_limit(1).unwrap().order_by_field(SIZE);
    assert!(tweaked.requires_scoring());
}
