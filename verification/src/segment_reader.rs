//! Plain-data stand-ins for the segment and columnar-storage collaborators.
//!
//! The scan harness and the columnar ("fast field") storage engine live
//! outside this crate. The collectors only ever read one thing from them: a
//! per-document `u64` column resolved by field id, random-access eligible or
//! not. `SegmentReader` holds exactly that, so the field-ordering adapter
//! can be specified and verified over plain values.
use vstd::prelude::*;

verus! {

/// One per-document column of a segment: the field it belongs to, whether
/// the schema opened it for random access, and its raw `u64` value for each
/// local document id.
pub struct FastFieldColumn {
    /// The field this column stores.
    pub field: u32,
    /// Whether the field is configured for random access.
    pub fast: bool,
    /// The raw value per local document id.
    pub values: Vec<u64>,
}

/// The per-segment view the collectors consume: the segment's columns.
pub struct SegmentReader {
    /// One entry per field that the segment stores a column for.
    pub columns: Vec<FastFieldColumn>,
}

/// Lenient random access: the value at `doc`, or zero past the column's end.
pub open spec fn lenient_at(values: Seq<u64>, doc: u32) -> u64 {
    if (doc as int) < values.len() {
        values[doc as int]
    } else {
        0
    }
}

impl SegmentReader {
    /// A well-formed segment stores at most one column per field.
    pub open spec fn wf(self) -> bool {
        forall|i: int, j: int|
            0 <= i < j < self.columns@.len() ==> (#[trigger] self.columns@[i]).field != (
            #[trigger] self.columns@[j]).field
    }

    /// Whether `field` has a random-access column in this segment.
    pub open spec fn has_fast_field(self, field: u32) -> bool {
        exists|i: int|
            0 <= i < self.columns@.len() && (#[trigger] self.columns@[i]).field == field
                && self.columns@[i].fast
    }

    /// The values of `field`'s random-access column.
    pub open spec fn fast_field_values(self, field: u32) -> Seq<u64> {
        let i = choose|i: int|
            0 <= i < self.columns@.len() && (#[trigger] self.columns@[i]).field == field
                && self.columns@[i].fast;
        self.columns@[i].values@
    }

    /// Resolves a random-access `u64` reader for `field`: `None` when the
    /// field has no column here or its column is not open to random access.
    pub fn u64_lenient(&self, field: u32) -> (r: Option<FastFieldReader>)
        requires
            self.wf(),
        ensures
            r is Some <==> self.has_fast_field(field),
            r matches Some(ff) ==> ff.values@ == self.fast_field_values(field),
    {
        let n = self.columns.len();
        let mut i: usize = 0;
        while i < n
            invariant
                n == self.columns@.len(),
                i <= n,
                self.wf(),
                forall|k: int|
                    0 <= k < i ==> !((#[trigger] self.columns@[k]).field == field
                        && self.columns@[k].fast),
            decreases n - i,
        {
            let col = &self.columns[i];
            if col.field == field && col.fast {
                let m = col.values.len();
                let mut out: Vec<u64> = Vec::new();
                let mut j: usize = 0;
                while j < m
                    invariant
                        m == col.values@.len(),
                        j <= m,
                        out@ == col.values@.take(j as int),
                    decreases m - j,
                {
                    out.push(col.values[j]);
                    proof {
                        assert(out@ =~= col.values@.take(j + 1));
                    }
                    j = j + 1;
                }
                proof {
                    assert(out@ =~= col.values@);
                    let w = choose|w: int|
                        0 <= w < self.columns@.len() && (#[trigger] self.columns@[w]).field
                            == field && self.columns@[w].fast;
                    assert(w == i);
                }
                return Some(FastFieldReader { values: out });
            }
            i = i + 1;
        }
        None
    }
}

/// Random-access reader over one segment's column, as handed out by
/// [`SegmentReader::u64_lenient`]. Lookups are total: a document id past
/// the column's end reads as zero.
pub struct FastFieldReader {
    /// The raw value per local document id.
    pub values: Vec<u64>,
}

impl FastFieldReader {
    /// The value [`Self::get`] returns for `doc`.
    pub open spec fn value_spec(self, doc: u32) -> u64 {
        lenient_at(self.values@, doc)
    }

    /// The column's value for `doc`, or zero past the end.
    pub fn get(&self, doc: u32) -> (r: u64)
        ensures
            r == self.value_spec(doc),
    {
        if (doc as usize) < self.values.len() {
            self.values[doc as usize]
        } else {
            0
        }
    }
}

} // verus!
