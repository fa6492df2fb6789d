//! The two-phase score-tweaking capability.
//!
//! Ranking by something other than the raw score needs a resource scoped to
//! one segment (typically a columnar reader) that must not be reopened per
//! document. A query-level [`ScoreTweaker`] therefore binds to a segment
//! once, fallibly, and produces a segment-level [`SegmentScoreTweaker`]: an
//! infallible pure function from `(document, score)` to the ranking key,
//! evaluated on the per-document hot path.
use vstd::prelude::*;
use crate::CollectorError;
use crate::DocAddress;
use crate::segment_reader::SegmentReader;
use crate::top_collector::RankedHit;
use crate::top_collector::TopCollector;
use crate::top_collector::TopSegmentCollector;
use crate::top_collector::all_hits;
use crate::top_collector::is_top_of;

verus! {

/// Segment-scoped ranking: a pure, infallible function assigning each
/// `(document, score)` pair its ranking key.
pub trait SegmentScoreTweaker: Sized {
    /// The key this tweaker assigns; a function of the document id and its
    /// original score alone.
    spec fn key_spec(&self, doc: u32, score: u64) -> u64;

    /// Computes the ranking key for one matching document.
    fn score(&self, doc: u32, score: u64) -> (r: u64)
        ensures
            r == self.key_spec(doc, score),
    ;
}

/// Query-scoped ranking: binds to each segment in turn, opening whatever
/// per-segment resource the ranking needs, and yields that segment's
/// [`SegmentScoreTweaker`]. Binding may fail; a ranking criterion that
/// cannot be evaluated aborts the whole search rather than skip a segment.
pub trait ScoreTweaker: Sized {
    /// The segment-scoped tweaker this one produces.
    type Child: SegmentScoreTweaker;

    /// Whether binding to `reader`'s segment succeeds.
    spec fn binds(&self, reader: SegmentReader) -> bool;

    /// The error reported when binding to `reader`'s segment fails.
    spec fn bind_err(&self, reader: SegmentReader) -> CollectorError;

    /// The key the bound segment tweaker assigns to each document.
    spec fn segment_key(&self, reader: SegmentReader, doc: u32, score: u64) -> u64;

    /// Binds to one segment, before any of its documents is scanned.
    fn for_segment(&self, reader: &SegmentReader) -> (r: Result<Self::Child, CollectorError>)
        requires
            reader.wf(),
        ensures
            r is Ok <==> self.binds(*reader),
            (r matches Ok(child) ==> forall|doc: u32, score: u64|
                #[trigger] child.key_spec(doc, score) == self.segment_key(*reader, doc, score)),
            (r matches Err(e) ==> e == self.bind_err(*reader)),
    ;
}

/// Segment collector composing a bound [`SegmentScoreTweaker`] with the
/// bounded top-K buffer: each offered document is keyed by the tweaker,
/// then retained or discarded by rank.
pub struct TweakedSegmentTopCollector<TS: SegmentScoreTweaker> {
    tweaker: TS,
    inner: TopSegmentCollector,
}

impl<TS: SegmentScoreTweaker> TweakedSegmentTopCollector<TS> {
    /// The inner bounded buffer is well formed.
    pub closed spec fn wf(self) -> bool {
        self.inner.wf()
    }

    /// The capacity this collector was built with.
    pub closed spec fn limit_spec(self) -> nat {
        self.inner.limit_spec()
    }

    /// The ordinal of the segment this collector collects for.
    pub closed spec fn segment_spec(self) -> u32 {
        self.inner.segment_spec()
    }

    /// Every keyed hit fed to the buffer so far, in arrival order.
    pub closed spec fn collected_spec(self) -> Seq<RankedHit> {
        self.inner.collected_spec()
    }

    /// The bound segment tweaker.
    pub closed spec fn tweaker_spec(self) -> TS {
        self.tweaker
    }

    /// Offers one matching document: its ranking key is computed by the
    /// bound tweaker, then kept if it ranks among the `limit` best so far.
    pub fn collect(&mut self, doc: u32, score: u64)
        requires
            old(self).wf(),
        ensures
            final(self).wf(),
            final(self).limit_spec() == old(self).limit_spec(),
            final(self).segment_spec() == old(self).segment_spec(),
            final(self).tweaker_spec() == old(self).tweaker_spec(),
            final(self).collected_spec() == old(self).collected_spec().push(
                (
                    old(self).tweaker_spec().key_spec(doc, score),
                    DocAddress(old(self).segment_spec(), doc),
                ),
            ),
    {
        let key = self.tweaker.score(doc, score);
        self.inner.collect(doc, key);
    }

    /// Destroys the collector and hands out what it retained, best first:
    /// a top-`limit` selection of every keyed hit collected.
    pub fn harvest(self) -> (r: Vec<RankedHit>)
        requires
            self.wf(),
        ensures
            is_top_of(r@, self.collected_spec().to_multiset(), self.limit_spec()),
    {
        self.inner.harvest()
    }
}

/// Query-level collector composing a [`ScoreTweaker`] with the bounded
/// top-K collection: one tweaked segment collector per segment, and the
/// same global merge.
pub struct TweakedScoreTopCollector<TW: ScoreTweaker> {
    tweaker: TW,
    collector: TopCollector,
}

impl<TW: ScoreTweaker> TweakedScoreTopCollector<TW> {
    /// The collector behind this one is well formed.
    pub closed spec fn wf(self) -> bool {
        self.collector.wf()
    }

    /// The capacity this collector was built with.
    pub closed spec fn limit_spec(self) -> nat {
        self.collector.limit_spec()
    }

    /// The query-level tweaker that redefines the ranking key.
    pub closed spec fn tweaker_spec(self) -> TW {
        self.tweaker
    }

    /// Builds a tweaked collector keeping the `limit` best documents under
    /// `tweaker`'s ranking key. A limit of zero is a caller error and is
    /// rejected outright.
    pub fn new(tweaker: TW, limit: usize) -> (r: Result<Self, CollectorError>)
        ensures
            limit == 0 ==> (r matches Err(e) && e == CollectorError::InvalidArgument),
            1 <= limit ==> (r matches Ok(c) && c.wf() && c.limit_spec() == limit
                && c.tweaker_spec() == tweaker),
    {
        match TopCollector::with_limit(limit) {
            Ok(collector) => Ok(TweakedScoreTopCollector { tweaker, collector }),
            Err(e) => Err(e),
        }
    }

    pub(crate) fn from_parts(tweaker: TW, collector: TopCollector) -> (r: Self)
        requires
            collector.wf(),
        ensures
            r.wf(),
            r.limit_spec() == collector.limit_spec(),
            r.tweaker_spec() == tweaker,
    {
        TweakedScoreTopCollector { tweaker, collector }
    }

    /// Binds the tweaker to one segment and composes it with a fresh
    /// bounded collector. A binding failure aborts the search for this
    /// query: it propagates instead of silently skipping the segment.
    pub fn for_segment(&self, segment_local_id: u32, reader: &SegmentReader) -> (r: Result<
        TweakedSegmentTopCollector<TW::Child>,
        CollectorError,
    >)
        requires
            self.wf(),
            reader.wf(),
        ensures
            r is Ok <==> self.tweaker_spec().binds(*reader),
            (r matches Ok(c) ==> {
                &&& c.wf()
                &&& c.limit_spec() == self.limit_spec()
                &&& c.segment_spec() == segment_local_id
                &&& c.collected_spec() == Seq::<RankedHit>::empty()
                &&& forall|doc: u32, score: u64|
                    #[trigger] c.tweaker_spec().key_spec(doc, score) == self.tweaker_spec().segment_key(
                        *reader,
                        doc,
                        score,
                    )
            }),
            (r matches Err(e) ==> e == self.tweaker_spec().bind_err(*reader)),
    {
        match self.tweaker.for_segment(reader) {
            Ok(seg_tweaker) => Ok(
                TweakedSegmentTopCollector {
                    tweaker: seg_tweaker,
                    inner: self.collector.for_segment(segment_local_id, reader),
                },
            ),
            Err(e) => Err(e),
        }
    }

    /// Whether the harness must compute relevance scores. A tweaker may
    /// ignore its score argument; scoring is requested conservatively.
    pub fn requires_scoring(&self) -> (r: bool)
        ensures
            r,
    {
        true
    }

    /// Reduces the per-segment harvests into the global top-K, best first.
    pub fn merge_fruits(&self, child_fruits: Vec<Vec<RankedHit>>) -> (r: Vec<RankedHit>)
        requires
            self.wf(),
        ensures
            is_top_of(r@, all_hits(child_fruits@).to_multiset(), self.limit_spec()),
    {
        self.collector.merge_fruits(child_fruits)
    }
}

} // verus!
