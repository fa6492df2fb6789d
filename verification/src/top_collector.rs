//! The bounded top-K accumulator shared by every collector of this crate,
//! and the cross-segment merge.
//!
//! A `TopSegmentCollector` ingests `(document, key)` pairs in arbitrary order
//! and retains only the `limit` best under [`ranks_geq`]; `harvest` hands the
//! retained pairs out best first. `TopCollector::merge_fruits` reduces the
//! per-segment harvests to the global top-K, which provably equals what one
//! collector scanning every document would have kept.
use vstd::prelude::*;
use vstd::multiset::Multiset;
use crate::CollectorError;
use crate::DocAddress;
use crate::segment_reader::SegmentReader;

verus! {

/// One retained candidate: the ranking key, then the document's address.
pub type RankedHit = (u64, DocAddress);

/// The ranking order: `a` ranks at least as well as `b` when its key is
/// strictly greater, or the keys are equal and `a`'s document address is not
/// later. The address tie-break makes the order total on values, so the
/// top-K selection is deterministic however documents and segments arrive.
pub open spec fn ranks_geq(a: RankedHit, b: RankedHit) -> bool {
    ||| a.0 > b.0
    ||| (a.0 == b.0 && (a.1.0 < b.1.0 || (a.1.0 == b.1.0 && a.1.1 <= b.1.1)))
}

/// Sorted best first: keys descending, addresses ascending among equal keys.
pub open spec fn sorted_by_rank(s: Seq<RankedHit>) -> bool {
    forall|i: int, j: int| 0 <= i < j < s.len() ==> ranks_geq(#[trigger] s[i], #[trigger] s[j])
}

/// Any two hits are comparable.
pub proof fn lemma_ranks_geq_total(a: RankedHit, b: RankedHit)
    ensures
        ranks_geq(a, b) || ranks_geq(b, a),
{
}

/// The ranking order is transitive.
pub proof fn lemma_ranks_geq_trans(a: RankedHit, b: RankedHit, c: RankedHit)
    requires
        ranks_geq(a, b),
        ranks_geq(b, c),
    ensures
        ranks_geq(a, c),
{
}

/// Two hits each ranking at least as well as the other are the same hit.
pub proof fn lemma_ranks_geq_antisym(a: RankedHit, b: RankedHit)
    requires
        ranks_geq(a, b),
        ranks_geq(b, a),
    ensures
        a == b,
{
    assert(a.0 == b.0 && a.1.0 == b.1.0 && a.1.1 == b.1.1);
    assert(a.1 == b.1);
}

/// `r` is a top-`k` selection of the multiset `seen`: sorted best first,
/// holding exactly `min(k, |seen|)` entries drawn from `seen`, every entry
/// it left out ranking no better than every entry it kept, and nothing left
/// out at all while there was room.
pub open spec fn is_top_of(r: Seq<RankedHit>, seen: Multiset<RankedHit>, k: nat) -> bool {
    &&& sorted_by_rank(r)
    &&& r.len() == (if k <= seen.len() { k } else { seen.len() })
    &&& r.to_multiset().subset_of(seen)
    &&& (forall|x: RankedHit|
        #[trigger] seen.count(x) > r.to_multiset().count(x) ==> (forall|i: int|
            0 <= i < r.len() ==> ranks_geq(#[trigger] r[i], x)))
    &&& (r.len() < k ==> r.to_multiset() == seen)
}

/// Working-state invariant of the bounded buffer: `buf` is sorted best
/// first, never over capacity, and every hit discarded so far ranks no
/// better than everything still held; nothing is discarded before the
/// buffer fills.
pub(crate) open spec fn bounded_inv(
    buf: Seq<RankedHit>,
    discarded: Multiset<RankedHit>,
    limit: nat,
) -> bool {
    &&& sorted_by_rank(buf)
    &&& buf.len() <= limit
    &&& (buf.len() < limit ==> discarded == Multiset::<RankedHit>::empty())
    &&& (forall|x: RankedHit|
        #[trigger] discarded.count(x) > 0 ==> (forall|i: int|
            0 <= i < buf.len() ==> ranks_geq(#[trigger] buf[i], x)))
}

/// The buffer together with its discards is a top-`limit` selection of
/// everything fed in so far.
pub(crate) proof fn lemma_inv_top(
    buf: Seq<RankedHit>,
    discarded: Multiset<RankedHit>,
    limit: nat,
)
    requires
        bounded_inv(buf, discarded, limit),
    ensures
        is_top_of(buf, buf.to_multiset().add(discarded), limit),
{
    broadcast use vstd::multiset::group_multiset_axioms;
    broadcast use vstd::seq_lib::group_to_multiset_ensures;

    let seen = buf.to_multiset().add(discarded);
    assert(seen.len() == buf.len() + discarded.len());
    if buf.len() < limit {
        assert(discarded.len() == 0);
        assert(buf.to_multiset() =~= seen);
    }
    assert forall|x: RankedHit| #[trigger] seen.count(x) > buf.to_multiset().count(x) implies (
    forall|i: int| 0 <= i < buf.len() ==> ranks_geq(#[trigger] buf[i], x)) by {
        assert(discarded.count(x) > 0);
    }
}

/// Does `a` rank at least as well as `b`?
fn ranks_geq_exec(a: &RankedHit, b: &RankedHit) -> (r: bool)
    ensures
        r == ranks_geq(*a, *b),
{
    a.0 > b.0 || (a.0 == b.0 && (a.1.0 < b.1.0 || (a.1.0 == b.1.0 && a.1.1 <= b.1.1)))
}

/// Index at which `hit` belongs in the sorted buffer: everything before it
/// ranks at least as well as `hit`, `hit` at least as well as everything
/// from the index on.
fn sorted_insert_pos(buf: &Vec<RankedHit>, hit: &RankedHit) -> (pos: usize)
    requires
        sorted_by_rank(buf@),
    ensures
        pos <= buf@.len(),
        forall|i: int| 0 <= i < pos ==> ranks_geq(#[trigger] buf@[i], *hit),
        forall|i: int| pos <= i < buf@.len() ==> ranks_geq(*hit, #[trigger] buf@[i]),
{
    let mut i: usize = 0;
    while i < buf.len() && ranks_geq_exec(&buf[i], hit)
        invariant
            i <= buf@.len(),
            sorted_by_rank(buf@),
            forall|j: int| 0 <= j < i ==> ranks_geq(#[trigger] buf@[j], *hit),
        decreases buf@.len() - i,
    {
        i = i + 1;
    }
    proof {
        if i < buf@.len() {
            lemma_ranks_geq_total(*hit, buf@[i as int]);
            assert forall|j: int| i <= j < buf@.len() implies ranks_geq(*hit, #[trigger] buf@[j]) by {
                if j > i {
                    lemma_ranks_geq_trans(*hit, buf@[i as int], buf@[j]);
                }
            }
        }
    }
    i
}

/// Feed one hit to the bounded buffer: insert while there is room, evict
/// the worst held entry when full and `hit` ranks strictly better, discard
/// `hit` otherwise. Returns the updated discard record.
fn insert_bounded(
    buf: &mut Vec<RankedHit>,
    limit: usize,
    hit: RankedHit,
    discarded: Ghost<Multiset<RankedHit>>,
) -> (out: Ghost<Multiset<RankedHit>>)
    requires
        1 <= limit,
        bounded_inv(old(buf)@, discarded@, limit as nat),
    ensures
        bounded_inv(final(buf)@, out@, limit as nat),
        final(buf)@.to_multiset().add(out@) == old(buf)@.to_multiset().add(discarded@).insert(
            hit,
        ),
{
    proof {
        broadcast use vstd::multiset::group_multiset_axioms;
        broadcast use vstd::seq_lib::group_to_multiset_ensures;

    }
    if buf.len() < limit {
        let pos = sorted_insert_pos(buf, &hit);
        let ghost prev = buf@;
        buf.insert(pos, hit);
        proof {
            prev.insert_ensures(pos as int, hit);
            assert(sorted_by_rank(buf@)) by {
                assert forall|i: int, j: int| 0 <= i < j < buf@.len() implies ranks_geq(
                    #[trigger] buf@[i],
                    #[trigger] buf@[j],
                ) by {
                    if i < pos && j == pos {
                    } else if i == pos && j > pos {
                    } else if i < pos && j > pos {
                        lemma_ranks_geq_trans(buf@[i], hit, buf@[j]);
                    }
                }
            }
            assert(buf@.to_multiset().add(discarded@) =~= prev.to_multiset().add(
                discarded@,
            ).insert(hit));
        }
        Ghost(discarded@)
    } else {
        let last = buf.len() - 1;
        if ranks_geq_exec(&buf[last], &hit) {
            // The buffer is full and even its worst entry ranks at least as
            // well as `hit`: discard `hit`.
            proof {
                let out = discarded@.insert(hit);
                assert forall|x: RankedHit| #[trigger] out.count(x) > 0 implies (forall|i: int|
                    0 <= i < buf@.len() ==> ranks_geq(#[trigger] buf@[i], x)) by {
                    if x == hit {
                        assert forall|i: int| 0 <= i < buf@.len() implies ranks_geq(
                            #[trigger] buf@[i],
                            hit,
                        ) by {
                            if i < last {
                                lemma_ranks_geq_trans(buf@[i], buf@[last as int], hit);
                            }
                        }
                    } else {
                        assert(discarded@.count(x) > 0);
                    }
                }
                assert(buf@.to_multiset().add(out) =~= buf@.to_multiset().add(
                    discarded@,
                ).insert(hit));
            }
            Ghost(discarded@.insert(hit))
        } else {
            // `hit` ranks strictly better than the worst held entry: evict
            // the worst, keep `hit`.
            let ghost prev = buf@;
            let worst = match buf.pop() {
                Some(w) => w,
                None => (0, DocAddress(0, 0)),
            };
            proof {
                assert(worst == prev[prev.len() - 1]);
                assert(buf@ =~= prev.remove(prev.len() - 1));
                assert(buf@.to_multiset() == prev.to_multiset().remove(worst));
                lemma_ranks_geq_total(prev[prev.len() - 1], hit);
            }
            let pos = sorted_insert_pos(buf, &hit);
            let ghost mid = buf@;
            buf.insert(pos, hit);
            proof {
                mid.insert_ensures(pos as int, hit);
                assert(sorted_by_rank(buf@)) by {
                    assert forall|i: int, j: int| 0 <= i < j < buf@.len() implies ranks_geq(
                        #[trigger] buf@[i],
                        #[trigger] buf@[j],
                    ) by {
                        if i < pos && j == pos {
                        } else if i == pos && j > pos {
                        } else if i < pos && j > pos {
                            lemma_ranks_geq_trans(buf@[i], hit, buf@[j]);
                        }
                    }
                }
                let out = discarded@.insert(worst);
                assert forall|x: RankedHit| #[trigger] out.count(x) > 0 implies (forall|i: int|
                    0 <= i < buf@.len() ==> ranks_geq(#[trigger] buf@[i], x)) by {
                    assert(ranks_geq(hit, worst));
                    if x == worst || discarded@.count(x) > 0 {
                        assert(discarded@.count(x) > 0 ==> ranks_geq(worst, x));
                        assert(ranks_geq(worst, x) || x == worst);
                        assert forall|i: int| 0 <= i < buf@.len() implies ranks_geq(
                            #[trigger] buf@[i],
                            x,
                        ) by {
                            assert(mid.len() == prev.len() - 1);
                            if i == pos {
                                if x == worst {
                                } else {
                                    lemma_ranks_geq_trans(hit, worst, x);
                                }
                            } else {
                                let k: int = if i < pos {
                                    i
                                } else {
                                    i - 1
                                };
                                assert(buf@[i] == mid[k]);
                                assert(mid[k] == prev[k]);
                                if x == worst {
                                    assert(ranks_geq(prev[k], worst)) by {
                                        if k < prev.len() - 1 {
                                            assert(ranks_geq(prev[k], prev[prev.len() - 1]));
                                        }
                                    }
                                } else {
                                    assert(ranks_geq(prev[k], x));
                                }
                            }
                        }
                    }
                }
                assert(buf@.to_multiset().add(out) =~= prev.to_multiset().add(discarded@).insert(
                    hit,
                ));
            }
            Ghost(discarded@.insert(worst))
        }
    }
}

/// Per-segment bounded accumulator: ingests one `(document, key)` pair per
/// matching document, in any order, and retains only the `limit` best under
/// the ranking order.
pub struct TopSegmentCollector {
    limit: usize,
    segment_ord: u32,
    buffer: Vec<RankedHit>,
    collected: Ghost<Seq<RankedHit>>,
    discarded: Ghost<Multiset<RankedHit>>,
}

impl TopSegmentCollector {
    /// Internal consistency: the buffer honours the bounded-buffer
    /// invariant, and buffer plus discards account for exactly the hits
    /// collected so far.
    pub closed spec fn wf(self) -> bool {
        &&& 1 <= self.limit
        &&& bounded_inv(self.buffer@, self.discarded@, self.limit as nat)
        &&& self.collected@.to_multiset() == self.buffer@.to_multiset().add(self.discarded@)
    }

    /// The capacity this collector was built with.
    pub closed spec fn limit_spec(self) -> nat {
        self.limit as nat
    }

    /// The ordinal of the segment this collector collects for.
    pub closed spec fn segment_spec(self) -> u32 {
        self.segment_ord
    }

    /// Every hit fed to `collect` so far, in arrival order.
    pub closed spec fn collected_spec(self) -> Seq<RankedHit> {
        self.collected@
    }

    pub(crate) fn new(limit: usize, segment_ord: u32) -> (r: TopSegmentCollector)
        requires
            1 <= limit,
        ensures
            r.wf(),
            r.limit_spec() == limit,
            r.segment_spec() == segment_ord,
            r.collected_spec() == Seq::<RankedHit>::empty(),
    {
        let r = TopSegmentCollector {
            limit,
            segment_ord,
            buffer: Vec::new(),
            collected: Ghost(Seq::empty()),
            discarded: Ghost(Multiset::empty()),
        };
        proof {
            broadcast use vstd::multiset::group_multiset_axioms;
            broadcast use vstd::seq_lib::group_to_multiset_ensures;

            assert(r.collected@.to_multiset() =~= r.buffer@.to_multiset().add(r.discarded@));
        }
        r
    }

    /// Offers one matching document with its ranking key. Kept if it ranks
    /// among the `limit` best seen so far, otherwise discarded; a full
    /// buffer evicts its worst entry for a strictly better newcomer.
    pub fn collect(&mut self, doc: u32, score: u64)
        requires
            old(self).wf(),
        ensures
            final(self).wf(),
            final(self).limit_spec() == old(self).limit_spec(),
            final(self).segment_spec() == old(self).segment_spec(),
            final(self).collected_spec() == old(self).collected_spec().push(
                (score, DocAddress(old(self).segment_spec(), doc)),
            ),
    {
        let hit: RankedHit = (score, DocAddress(self.segment_ord, doc));
        let out = insert_bounded(&mut self.buffer, self.limit, hit, Ghost(self.discarded@));
        self.discarded = out;
        self.collected = Ghost(self.collected@.push(hit));
        proof {
            broadcast use vstd::multiset::group_multiset_axioms;
            broadcast use vstd::seq_lib::group_to_multiset_ensures;

            assert(self.collected@.to_multiset() =~= self.buffer@.to_multiset().add(
                self.discarded@,
            ));
        }
    }

    /// Destroys the collector and hands out what it retained, best first:
    /// a top-`limit` selection of everything collected.
    pub fn harvest(self) -> (r: Vec<RankedHit>)
        requires
            self.wf(),
        ensures
            is_top_of(r@, self.collected_spec().to_multiset(), self.limit_spec()),
    {
        proof {
            lemma_inv_top(self.buffer@, self.discarded@, self.limit as nat);
        }
        self.buffer
    }
}

/// Every hit of every per-segment harvest, in order.
pub open spec fn all_hits(fruits: Seq<Vec<RankedHit>>) -> Seq<RankedHit>
    decreases fruits.len(),
{
    if fruits.len() == 0 {
        Seq::empty()
    } else {
        all_hits(fruits.drop_last()) + fruits.last()@
    }
}

/// Query-level collector: holds the limit, builds one bounded segment
/// collector per segment, and reduces the per-segment harvests into the
/// final globally ordered top-K list.
pub struct TopCollector {
    limit: usize,
}

impl TopCollector {
    /// The capacity this collector was built with.
    pub closed spec fn limit_spec(self) -> nat {
        self.limit as nat
    }

    /// A collector is well-formed when its limit is at least one.
    pub open spec fn wf(self) -> bool {
        1 <= self.limit_spec()
    }

    /// Builds a collector keeping the `limit` best documents. A limit of
    /// zero is a caller error: it is rejected here, not clamped and not
    /// panicked on.
    pub fn with_limit(limit: usize) -> (r: Result<TopCollector, CollectorError>)
        ensures
            limit == 0 ==> r == Result::<TopCollector, CollectorError>::Err(
                CollectorError::InvalidArgument,
            ),
            1 <= limit ==> (r matches Ok(c) && c.wf() && c.limit_spec() == limit),
    {
        if limit == 0 {
            Err(CollectorError::InvalidArgument)
        } else {
            Ok(TopCollector { limit })
        }
    }

    /// The capacity this collector was built with.
    pub fn limit(&self) -> (r: usize)
        ensures
            r == self.limit_spec(),
    {
        self.limit
    }

    /// Builds the bounded collector for one segment. The plain ranking
    /// reads nothing from the segment itself, so this cannot fail.
    pub fn for_segment(&self, segment_local_id: u32, _reader: &SegmentReader) -> (r:
        TopSegmentCollector)
        requires
            self.wf(),
        ensures
            r.wf(),
            r.limit_spec() == self.limit_spec(),
            r.segment_spec() == segment_local_id,
            r.collected_spec() == Seq::<RankedHit>::empty(),
    {
        TopSegmentCollector::new(self.limit, segment_local_id)
    }

    /// Reduces the per-segment harvests into the global top-K: a
    /// top-`limit` selection of every hit the segments handed over,
    /// best first.
    pub fn merge_fruits(&self, child_fruits: Vec<Vec<RankedHit>>) -> (r: Vec<RankedHit>)
        requires
            self.wf(),
        ensures
            is_top_of(r@, all_hits(child_fruits@).to_multiset(), self.limit_spec()),
    {
        proof {
            broadcast use vstd::multiset::group_multiset_axioms;
            broadcast use vstd::seq_lib::group_to_multiset_ensures;

        }
        let mut buf: Vec<RankedHit> = Vec::new();
        let mut discarded: Ghost<Multiset<RankedHit>> = Ghost(Multiset::empty());
        let ghost mut seen: Seq<RankedHit> = Seq::empty();
        proof {
            assert(seen.to_multiset() =~= buf@.to_multiset().add(discarded@));
            assert(child_fruits@.take(0) =~= Seq::<Vec<RankedHit>>::empty());
        }
        let n = child_fruits.len();
        let mut i: usize = 0;
        while i < n
            invariant
                n == child_fruits@.len(),
                i <= n,
                self.wf(),
                bounded_inv(buf@, discarded@, self.limit as nat),
                buf@.to_multiset().add(discarded@) == seen.to_multiset(),
                seen == all_hits(child_fruits@.take(i as int)),
            decreases n - i,
        {
            let m = child_fruits[i].len();
            let mut j: usize = 0;
            while j < m
                invariant
                    n == child_fruits@.len(),
                    i < n,
                    m == child_fruits@[i as int]@.len(),
                    j <= m,
                    self.wf(),
                    bounded_inv(buf@, discarded@, self.limit as nat),
                    buf@.to_multiset().add(discarded@) == seen.to_multiset(),
                    seen == all_hits(child_fruits@.take(i as int)) + child_fruits@[i as int]@.take(
                        j as int,
                    ),
                decreases m - j,
            {
                let hit = child_fruits[i][j];
                discarded = insert_bounded(&mut buf, self.limit, hit, discarded);
                proof {
                    broadcast use vstd::multiset::group_multiset_axioms;
                    broadcast use vstd::seq_lib::group_to_multiset_ensures;

                    seen = seen.push(hit);
                    assert(child_fruits@[i as int]@.take(j + 1) =~= child_fruits@[i as int]@.take(
                        j as int,
                    ).push(hit));
                    assert(seen =~= all_hits(child_fruits@.take(i as int)) + child_fruits@[
                        i as int]@.take(j + 1));
                }
                j = j + 1;
            }
            proof {
                let pre = child_fruits@.take(i as int);
                let ext = child_fruits@.take(i + 1);
                assert(child_fruits@[i as int]@.take(m as int) =~= child_fruits@[i as int]@);
                assert(ext.drop_last() =~= pre);
                assert(ext.last() == child_fruits@[i as int]);
                assert(all_hits(ext) == all_hits(ext.drop_last()) + ext.last()@);
                assert(seen == all_hits(ext));
            }
            i = i + 1;
        }
        proof {
            assert(child_fruits@.take(n as int) =~= child_fruits@);
            lemma_inv_top(buf@, discarded@, self.limit as nat);
        }
        buf
    }
}

/// All documents of a family of segments, in order.
pub open spec fn concat_hits(parts: Seq<Seq<RankedHit>>) -> Seq<RankedHit>
    decreases parts.len(),
{
    if parts.len() == 0 {
        Seq::empty()
    } else {
        concat_hits(parts.drop_last()) + parts.last()
    }
}

/// A multiset contained in another is no longer than it; the larger is the
/// smaller plus the difference.
pub proof fn lemma_subset_len(a: Multiset<RankedHit>, b: Multiset<RankedHit>)
    requires
        a.subset_of(b),
    ensures
        b == a.add(b.sub(a)),
        a.len() <= b.len(),
{
    broadcast use vstd::multiset::group_multiset_axioms;

    assert(b =~= a.add(b.sub(a)));
}

/// Count bookkeeping between a family of per-segment fruits and the
/// segments they were selected from: the fruits together are contained in
/// the segments together, each fruit is contained in the fruits together,
/// fruits equal to their segments concatenate to equal multisets, and a
/// hit that the fruits together lack some copies of is lacking in some
/// single fruit.
proof fn lemma_family_facts(fruits: Seq<Vec<RankedHit>>, segments: Seq<Seq<RankedHit>>, k: nat)
    requires
        fruits.len() == segments.len(),
        forall|s: int|
            0 <= s < fruits.len() ==> is_top_of(
                (#[trigger] fruits[s])@,
                segments[s].to_multiset(),
                k,
            ),
    ensures
        all_hits(fruits).to_multiset().subset_of(concat_hits(segments).to_multiset()),
        forall|s: int|
            0 <= s < fruits.len() ==> (#[trigger] fruits[s])@.to_multiset().subset_of(
                all_hits(fruits).to_multiset(),
            ),
        (forall|s: int|
            0 <= s < fruits.len() ==> (#[trigger] fruits[s])@.to_multiset() == segments[
                s
            ].to_multiset()) ==> all_hits(fruits).to_multiset() == concat_hits(
            segments,
        ).to_multiset(),
        forall|x: RankedHit|
            #[trigger] concat_hits(segments).to_multiset().count(x) > all_hits(
                fruits,
            ).to_multiset().count(x) ==> exists|s: int|
                0 <= s < fruits.len() && #[trigger] segments[s].to_multiset().count(x) > fruits[
                    s
                ]@.to_multiset().count(x),
    decreases fruits.len(),
{
    broadcast use vstd::multiset::group_multiset_axioms;
    broadcast use vstd::seq_lib::group_to_multiset_ensures;

    if fruits.len() == 0 {
        assert(all_hits(fruits).to_multiset() =~= Multiset::<RankedHit>::empty());
        assert(concat_hits(segments).to_multiset() =~= Multiset::<RankedHit>::empty());
    } else {
        let n = fruits.len();
        let f2 = fruits.drop_last();
        let s2 = segments.drop_last();
        assert(forall|s: int| 0 <= s < n - 1 ==> (#[trigger] f2[s]) == fruits[s]);
        assert(forall|s: int| 0 <= s < n - 1 ==> (#[trigger] s2[s]) == segments[s]);
        lemma_family_facts(f2, s2, k);
        vstd::seq_lib::lemma_multiset_commutative(all_hits(f2), fruits.last()@);
        vstd::seq_lib::lemma_multiset_commutative(concat_hits(s2), segments.last());
        let fa = all_hits(fruits).to_multiset();
        let sa = concat_hits(segments).to_multiset();
        let fp = all_hits(f2).to_multiset();
        let sp = concat_hits(s2).to_multiset();
        let fl = fruits.last()@.to_multiset();
        let sl = segments.last().to_multiset();
        assert(fa == fp.add(fl));
        assert(sa == sp.add(sl));
        assert(fruits.last() == fruits[n - 1]);
        assert(segments.last() == segments[n - 1]);
        assert(is_top_of(fruits[n - 1]@, segments[n - 1].to_multiset(), k));
        assert(fl.subset_of(sl));
        assert(fa.subset_of(sa));
        assert forall|s: int| 0 <= s < n implies (#[trigger] fruits[s])@.to_multiset().subset_of(
            fa,
        ) by {
            if s < n - 1 {
                assert(f2[s] == fruits[s]);
                assert(f2[s]@.to_multiset().subset_of(fp));
            }
        }
        if forall|s: int|
            0 <= s < n ==> (#[trigger] fruits[s])@.to_multiset() == segments[s].to_multiset() {
            assert(forall|s: int|
                0 <= s < n - 1 ==> (#[trigger] f2[s])@.to_multiset() == s2[s].to_multiset());
            assert(fp == sp);
            assert(fl == sl);
        }
        assert forall|x: RankedHit| #[trigger] sa.count(x) > fa.count(x) implies exists|s: int|
            0 <= s < n && #[trigger] segments[s].to_multiset().count(x) > fruits[
                s
            ]@.to_multiset().count(x) by {
            if sl.count(x) > fl.count(x) {
                assert(segments[n - 1].to_multiset().count(x) > fruits[n - 1]@.to_multiset().count(
                    x,
                ));
            } else {
                assert(sp.count(x) > fp.count(x));
                let s = choose|s: int|
                    0 <= s < n - 1 && #[trigger] s2[s].to_multiset().count(x) > f2[
                        s
                    ]@.to_multiset().count(x);
                assert(segments[s].to_multiset().count(x) > fruits[s]@.to_multiset().count(x));
            }
        }
    }
}

/// A document multiset has exactly one top-`k` selection: the ranking
/// order is total thanks to the address tie-break, so any two sequences
/// that each satisfy [`is_top_of`] for the same documents and the same
/// limit are equal.
pub proof fn lemma_top_of_unique(
    a: Seq<RankedHit>,
    b: Seq<RankedHit>,
    seen: Multiset<RankedHit>,
    k: nat,
)
    requires
        is_top_of(a, seen, k),
        is_top_of(b, seen, k),
    ensures
        a == b,
    decreases a.len(),
{
    broadcast use vstd::multiset::group_multiset_axioms;
    broadcast use vstd::seq_lib::group_to_multiset_ensures;

    if a.len() == 0 {
        assert(a =~= b);
    } else {
        assert(b.len() == a.len());
        assert(k >= 1);
        assert(a.contains(a[0]));
        assert(b.contains(b[0]));
        assert(a.to_multiset().count(a[0]) > 0);
        assert(b.to_multiset().count(b[0]) > 0);
        assert(seen.count(a[0]) > 0);
        assert(seen.count(b[0]) > 0);
        assert forall|x: RankedHit| #[trigger] seen.count(x) > 0 implies ranks_geq(a[0], x) by {
            if seen.count(x) > a.to_multiset().count(x) {
                assert(ranks_geq(a[0], x));
            } else {
                assert(a.to_multiset().count(x) > 0);
                assert(a.contains(x));
                let w = choose|w: int| 0 <= w < a.len() && a[w] == x;
                assert(ranks_geq(a[0], a[w]));
            }
        }
        assert forall|x: RankedHit| #[trigger] seen.count(x) > 0 implies ranks_geq(b[0], x) by {
            if seen.count(x) > b.to_multiset().count(x) {
                assert(ranks_geq(b[0], x));
            } else {
                assert(b.to_multiset().count(x) > 0);
                assert(b.contains(x));
                let w = choose|w: int| 0 <= w < b.len() && b[w] == x;
                assert(ranks_geq(b[0], b[w]));
            }
        }
        lemma_ranks_geq_antisym(a[0], b[0]);
        let a2 = a.drop_first();
        let b2 = b.drop_first();
        let seen2 = seen.remove(a[0]);
        assert(a2 =~= a.remove(0));
        assert(b2 =~= b.remove(0));
        assert(a.remove(0).to_multiset() =~= a.to_multiset().remove(a[0]));
        assert(b.remove(0).to_multiset() =~= b.to_multiset().remove(b[0]));
        assert(a2.to_multiset() == a.to_multiset().remove(a[0]));
        assert(b2.to_multiset() == b.to_multiset().remove(a[0]));
        assert(seen =~= seen2.insert(a[0]));
        assert(seen.len() == seen2.len() + 1);
        assert(sorted_by_rank(a2)) by {
            assert forall|i: int, j: int| 0 <= i < j < a2.len() implies ranks_geq(
                #[trigger] a2[i],
                #[trigger] a2[j],
            ) by {
                assert(a2[i] == a[i + 1] && a2[j] == a[j + 1]);
            }
        }
        assert(sorted_by_rank(b2)) by {
            assert forall|i: int, j: int| 0 <= i < j < b2.len() implies ranks_geq(
                #[trigger] b2[i],
                #[trigger] b2[j],
            ) by {
                assert(b2[i] == b[i + 1] && b2[j] == b[j + 1]);
            }
        }
        assert(is_top_of(a2, seen2, (k - 1) as nat)) by {
            assert forall|x: RankedHit| #[trigger] seen2.count(x) > a2.to_multiset().count(
                x,
            ) implies (forall|i: int| 0 <= i < a2.len() ==> ranks_geq(#[trigger] a2[i], x)) by {
                assert(seen.count(x) > a.to_multiset().count(x));
                assert forall|i: int| 0 <= i < a2.len() implies ranks_geq(#[trigger] a2[i], x) by {
                    assert(a2[i] == a[i + 1]);
                    assert(ranks_geq(a[i + 1], x));
                }
            }
            if a2.len() < k - 1 {
                assert(a.to_multiset() == seen);
                assert(a2.to_multiset() =~= seen2);
            }
        }
        assert(is_top_of(b2, seen2, (k - 1) as nat)) by {
            assert forall|x: RankedHit| #[trigger] seen2.count(x) > b2.to_multiset().count(
                x,
            ) implies (forall|i: int| 0 <= i < b2.len() ==> ranks_geq(#[trigger] b2[i], x)) by {
                assert(seen.count(x) > b.to_multiset().count(x));
                assert forall|i: int| 0 <= i < b2.len() implies ranks_geq(#[trigger] b2[i], x) by {
                    assert(b2[i] == b[i + 1]);
                    assert(ranks_geq(b[i + 1], x));
                }
            }
            if b2.len() < k - 1 {
                assert(b.to_multiset() == seen);
                assert(b2.to_multiset() =~= seen2);
            }
        }
        lemma_top_of_unique(a2, b2, seen2, (k - 1) as nat);
        assert(a =~= b) by {
            assert forall|i: int| 0 <= i < a.len() implies a[i] == b[i] by {
                if i > 0 {
                    assert(a[i] == a2[i - 1] && b[i] == b2[i - 1]);
                }
            }
        }
    }
}

/// Collecting per segment and then merging is observably equivalent to one
/// bounded collector scanning every document of every segment: when each
/// per-segment fruit is a top-`k` selection of that segment's documents, a
/// top-`k` selection of the fruits taken together equals the top-`k`
/// selection of all the documents taken together, whatever the partition.
pub proof fn lemma_merge_equivalence(
    fruits: Seq<Vec<RankedHit>>,
    segments: Seq<Seq<RankedHit>>,
    merged: Seq<RankedHit>,
    whole: Seq<RankedHit>,
    k: nat,
)
    requires
        fruits.len() == segments.len(),
        forall|s: int|
            0 <= s < fruits.len() ==> is_top_of(
                (#[trigger] fruits[s])@,
                segments[s].to_multiset(),
                k,
            ),
        is_top_of(merged, all_hits(fruits).to_multiset(), k),
        is_top_of(whole, concat_hits(segments).to_multiset(), k),
    ensures
        merged == whole,
{
    broadcast use vstd::multiset::group_multiset_axioms;
    broadcast use vstd::seq_lib::group_to_multiset_ensures;

    let fa = all_hits(fruits).to_multiset();
    let sa = concat_hits(segments).to_multiset();
    lemma_family_facts(fruits, segments, k);
    lemma_subset_len(fa, sa);
    if merged.len() < k {
        // Nothing was dropped anywhere: every fruit carries its whole
        // segment, so the fruits together are the documents together.
        assert(merged.to_multiset() == fa);
        assert(fa.len() == merged.len());
        assert forall|p: int| 0 <= p < fruits.len() implies (#[trigger] fruits[p])@.to_multiset()
            == segments[p].to_multiset() by {
            lemma_subset_len(fruits[p]@.to_multiset(), fa);
            assert(fruits[p]@.to_multiset().len() <= fa.len());
            assert(fruits[p]@.len() < k);
        }
        assert(fa == sa);
        assert(is_top_of(merged, sa, k));
    } else {
        assert(merged.len() == k);
        assert(fa.len() >= k);
        assert(sa.len() >= fa.len());
        assert(merged.to_multiset().len() == k);
        assert forall|x: RankedHit| #[trigger] sa.count(x) > merged.to_multiset().count(
            x,
        ) implies (forall|i: int| 0 <= i < merged.len() ==> ranks_geq(#[trigger] merged[i], x)) by {
            if fa.count(x) > merged.to_multiset().count(x) {
                assert(forall|i: int| 0 <= i < merged.len() ==> ranks_geq(#[trigger] merged[i], x));
            } else {
                assert(merged.to_multiset().count(x) == fa.count(x));
                assert(sa.count(x) > fa.count(x));
                let p = choose|p: int|
                    0 <= p < fruits.len() && #[trigger] segments[p].to_multiset().count(x) > fruits[
                        p
                    ]@.to_multiset().count(x);
                assert(forall|i: int|
                    0 <= i < fruits[p]@.len() ==> ranks_geq(#[trigger] fruits[p]@[i], x));
                assert(fruits[p]@.len() == k) by {
                    if fruits[p]@.len() < k {
                        assert(fruits[p]@.to_multiset() == segments[p].to_multiset());
                    }
                }
                assert forall|i: int| 0 <= i < merged.len() implies ranks_geq(
                    #[trigger] merged[i],
                    x,
                ) by {
                    if !ranks_geq(merged[i], x) {
                        lemma_ranks_geq_total(merged[i], x);
                        assert(ranks_geq(x, merged[i]));
                        let part = fruits[p]@.to_multiset();
                        assert forall|e: RankedHit| #[trigger] part.count(e) > 0 implies
                            merged.to_multiset().count(e) >= part.count(e) by {
                            assert(fruits[p]@.contains(e));
                            let w = choose|w: int| 0 <= w < fruits[p]@.len() && fruits[p]@[w] == e;
                            assert(ranks_geq(e, x));
                            if merged.to_multiset().count(e) < fa.count(e) {
                                assert(ranks_geq(merged[i], e));
                                lemma_ranks_geq_trans(merged[i], e, x);
                                assert(false);
                            }
                            assert(part.subset_of(fa));
                        }
                        assert(part.count(merged[i]) == 0) by {
                            if part.count(merged[i]) > 0 {
                                assert(fruits[p]@.contains(merged[i]));
                                let w = choose|w: int|
                                    0 <= w < fruits[p]@.len() && fruits[p]@[w] == merged[i];
                                assert(ranks_geq(fruits[p]@[w], x));
                                assert(false);
                            }
                        }
                        let extra = part.insert(merged[i]);
                        assert(merged.contains(merged[i]));
                        assert(merged.to_multiset().count(merged[i]) > 0);
                        assert(extra.subset_of(merged.to_multiset()));
                        lemma_subset_len(extra, merged.to_multiset());
                        assert(part.len() == k);
                        assert(extra.len() == k + 1);
                        assert(false);
                    }
                }
            }
        }
        assert(is_top_of(merged, sa, k));
    }
    lemma_top_of_unique(merged, whole, sa, k);
}

} // verus!
