//! Collecting the top-K documents of a query: ranked by score key, or by
//! the value of a random-access column through the built-in field-ordering
//! adapter.
use vstd::prelude::*;
use crate::CollectorError;
use crate::DocAddress;
use crate::segment_reader::FastFieldReader;
use crate::segment_reader::SegmentReader;
use crate::segment_reader::lenient_at;
use crate::top_collector::RankedHit;
use crate::top_collector::TopCollector;
use crate::top_collector::TopSegmentCollector;
use crate::top_collector::all_hits;
use crate::top_collector::is_top_of;
use crate::tweak_score_top_collector::ScoreTweaker;
use crate::tweak_score_top_collector::SegmentScoreTweaker;
use crate::tweak_score_top_collector::TweakedScoreTopCollector;

verus! {

/// The built-in field-ordering adapter: a [`ScoreTweaker`] that ranks by
/// the lenient value of one random-access column instead of the relevance
/// score. Binding fails with a schema error when the segment has no
/// random-access column for the field.
pub struct FieldOrderTweaker {
    /// The field whose column supplies the ranking key.
    pub field: u32,
}

/// Segment-bound form of [`FieldOrderTweaker`]: keys each document by its
/// value in the resolved column, reading leniently (zero past the end).
pub struct FieldSegmentTweaker {
    /// The column resolved for this segment.
    pub reader: FastFieldReader,
}

impl SegmentScoreTweaker for FieldSegmentTweaker {
    open spec fn key_spec(&self, doc: u32, score: u64) -> u64 {
        self.reader.value_spec(doc)
    }

    fn score(&self, doc: u32, score: u64) -> (r: u64) {
        self.reader.get(doc)
    }
}

impl ScoreTweaker for FieldOrderTweaker {
    type Child = FieldSegmentTweaker;

    open spec fn binds(&self, reader: SegmentReader) -> bool {
        reader.has_fast_field(self.field)
    }

    open spec fn bind_err(&self, reader: SegmentReader) -> CollectorError {
        CollectorError::SchemaError
    }

    open spec fn segment_key(&self, reader: SegmentReader, doc: u32, score: u64) -> u64 {
        lenient_at(reader.fast_field_values(self.field), doc)
    }

    fn for_segment(&self, reader: &SegmentReader) -> (r: Result<
        FieldSegmentTweaker,
        CollectorError,
    >) {
        match reader.u64_lenient(self.field) {
            Some(ff) => Ok(FieldSegmentTweaker { reader: ff }),
            None => Err(CollectorError::SchemaError),
        }
    }
}

/// The top score collector: keeps track of the K best documents, ranked
/// by score key descending with ascending document addresses breaking
/// ties. Score keys are order-preserving `u64` encodings supplied by the
/// caller, so any monotone notion of relevance fits.
pub struct TopDocs(TopCollector);

impl TopDocs {
    /// The collector behind this one is well formed.
    pub closed spec fn wf(self) -> bool {
        self.0.wf()
    }

    /// The capacity this collector was built with.
    pub closed spec fn limit_spec(self) -> nat {
        self.0.limit_spec()
    }

    /// Creates a top score collector keeping `limit` documents. A limit
    /// of zero is a caller error: it fails with an invalid-argument error
    /// rather than silently substituting a default or panicking later.
    pub fn with_limit(limit: usize) -> (r: Result<TopDocs, CollectorError>)
        ensures
            limit == 0 ==> r == Result::<TopDocs, CollectorError>::Err(
                CollectorError::InvalidArgument,
            ),
            1 <= limit ==> (r matches Ok(c) && c.wf() && c.limit_spec() == limit),
    {
        match TopCollector::with_limit(limit) {
            Ok(collector) => Ok(TopDocs(collector)),
            Err(e) => Err(e),
        }
    }

    /// Ranks documents by the lenient value of `field`'s random-access
    /// column instead of the relevance score. Binding to a segment fails
    /// with a schema error when the field has no random-access column
    /// there.
    pub fn order_by_field(self, field: u32) -> (r: TweakedScoreTopCollector<FieldOrderTweaker>)
        requires
            self.wf(),
        ensures
            r.wf(),
            r.limit_spec() == self.limit_spec(),
            r.tweaker_spec() == (FieldOrderTweaker { field }),
    {
        self.tweak_score(FieldOrderTweaker { field })
    }

    /// Composes this collector with a score tweaker, which redefines the
    /// ranking key without touching the scan loop or the merge.
    pub fn tweak_score<TW: ScoreTweaker>(self, score_tweaker: TW) -> (r: TweakedScoreTopCollector<
        TW,
    >)
        requires
            self.wf(),
        ensures
            r.wf(),
            r.limit_spec() == self.limit_spec(),
            r.tweaker_spec() == score_tweaker,
    {
        TweakedScoreTopCollector::from_parts(score_tweaker, self.0)
    }

    /// Builds this query's collector for one segment. Plain score ranking
    /// reads nothing from the segment itself, so this always succeeds.
    pub fn for_segment(&self, segment_local_id: u32, reader: &SegmentReader) -> (r: Result<
        TopScoreSegmentCollector,
        CollectorError,
    >)
        requires
            self.wf(),
        ensures
            r matches Ok(c) && c.wf() && c.limit_spec() == self.limit_spec() && c.segment_spec()
                == segment_local_id && c.collected_spec() == Seq::<RankedHit>::empty(),
    {
        Ok(TopScoreSegmentCollector(self.0.for_segment(segment_local_id, reader)))
    }

    /// Plain top-by-score ranking depends on the relevance score.
    pub fn requires_scoring(&self) -> (r: bool)
        ensures
            r,
    {
        true
    }

    /// Reduces the per-segment harvests into the final top-K list, best
    /// first: a top-`limit` selection of every hit the segments handed
    /// over.
    pub fn merge_fruits(&self, child_fruits: Vec<Vec<RankedHit>>) -> (r: Vec<RankedHit>)
        requires
            self.wf(),
        ensures
            is_top_of(r@, all_hits(child_fruits@).to_multiset(), self.limit_spec()),
    {
        self.0.merge_fruits(child_fruits)
    }
}

/// Segment collector associated to [`TopDocs`]: the ranking key is the
/// score itself.
pub struct TopScoreSegmentCollector(TopSegmentCollector);

impl TopScoreSegmentCollector {
    /// The inner bounded buffer is well formed.
    pub closed spec fn wf(self) -> bool {
        self.0.wf()
    }

    /// The capacity this collector was built with.
    pub closed spec fn limit_spec(self) -> nat {
        self.0.limit_spec()
    }

    /// The ordinal of the segment this collector collects for.
    pub closed spec fn segment_spec(self) -> u32 {
        self.0.segment_spec()
    }

    /// Every hit fed to `collect` so far, in arrival order.
    pub closed spec fn collected_spec(self) -> Seq<RankedHit> {
        self.0.collected_spec()
    }

    /// Offers one matching document with its score key; kept if it ranks
    /// among the `limit` best seen so far in this segment.
    pub fn collect(&mut self, doc: u32, score: u64)
        requires
            old(self).wf(),
        ensures
            final(self).wf(),
            final(self).limit_spec() == old(self).limit_spec(),
            final(self).segment_spec() == old(self).segment_spec(),
            final(self).collected_spec() == old(self).collected_spec().push(
                (score, DocAddress(old(self).segment_spec(), doc)),
            ),
    {
        self.0.collect(doc, score);
    }

    /// Destroys the collector and hands out this segment's top documents,
    /// best first.
    pub fn harvest(self) -> (r: Vec<RankedHit>)
        requires
            self.wf(),
        ensures
            is_top_of(r@, self.collected_spec().to_multiset(), self.limit_spec()),
    {
        self.0.harvest()
    }
}

} // verus!
