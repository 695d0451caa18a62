use vstd::prelude::*;

verus! {

/// The six parallel columns of a table, as mathematical sequences.
///
/// Float columns are carried as their IEEE-754 bit patterns, so equality
/// here is bit-for-bit equality of the original floats.
pub struct Columns {
    pub rt: Seq<u32>,
    pub mobility: Seq<u32>,
    pub mz: Seq<u32>,
    pub intensity: Seq<u32>,
    pub frame: Seq<u32>,
    pub scan: Seq<u32>,
}

impl Columns {
    pub open spec fn empty() -> Columns {
        Columns {
            rt: Seq::empty(),
            mobility: Seq::empty(),
            mz: Seq::empty(),
            intensity: Seq::empty(),
            frame: Seq::empty(),
            scan: Seq::empty(),
        }
    }

    /// Number of rows, read off the mass column.
    pub open spec fn len(self) -> nat {
        self.mz.len()
    }

    /// All six columns have the same length.
    pub open spec fn wf(self) -> bool {
        &&& self.rt.len() == self.len()
        &&& self.mobility.len() == self.len()
        &&& self.intensity.len() == self.len()
        &&& self.frame.len() == self.len()
        &&& self.scan.len() == self.len()
    }

    /// Rows `[lo, hi)` of every column.
    pub open spec fn slice(self, lo: int, hi: int) -> Columns {
        Columns {
            rt: self.rt.subrange(lo, hi),
            mobility: self.mobility.subrange(lo, hi),
            mz: self.mz.subrange(lo, hi),
            intensity: self.intensity.subrange(lo, hi),
            frame: self.frame.subrange(lo, hi),
            scan: self.scan.subrange(lo, hi),
        }
    }

    /// Rows of `self` followed by rows of `other`, column by column.
    pub open spec fn concat(self, other: Columns) -> Columns {
        Columns {
            rt: self.rt + other.rt,
            mobility: self.mobility + other.mobility,
            mz: self.mz + other.mz,
            intensity: self.intensity + other.intensity,
            frame: self.frame + other.frame,
            scan: self.scan + other.scan,
        }
    }
}

/// Two adjacent slices of a well-formed table concatenate to the slice
/// that spans both.
pub proof fn lemma_slice_concat(d: Columns, a: int, b: int, c: int)
    requires
        d.wf(),
        0 <= a <= b <= c <= d.len(),
    ensures
        d.slice(a, b).concat(d.slice(b, c)) == d.slice(a, c),
{
    assert(d.rt.subrange(a, b) + d.rt.subrange(b, c) =~= d.rt.subrange(a, c));
    assert(d.mobility.subrange(a, b) + d.mobility.subrange(b, c) =~= d.mobility.subrange(a, c));
    assert(d.mz.subrange(a, b) + d.mz.subrange(b, c) =~= d.mz.subrange(a, c));
    assert(d.intensity.subrange(a, b) + d.intensity.subrange(b, c) =~= d.intensity.subrange(
        a,
        c,
    ));
    assert(d.frame.subrange(a, b) + d.frame.subrange(b, c) =~= d.frame.subrange(a, c));
    assert(d.scan.subrange(a, b) + d.scan.subrange(b, c) =~= d.scan.subrange(a, c));
}

/// The whole-range slice of a well-formed table is the table itself.
pub proof fn lemma_slice_full(d: Columns)
    requires
        d.wf(),
    ensures
        d.slice(0, d.len() as int) == d,
{
    assert(d.rt.subrange(0, d.len() as int) =~= d.rt);
    assert(d.mobility.subrange(0, d.len() as int) =~= d.mobility);
    assert(d.mz.subrange(0, d.len() as int) =~= d.mz);
    assert(d.intensity.subrange(0, d.len() as int) =~= d.intensity);
    assert(d.frame.subrange(0, d.len() as int) =~= d.frame);
    assert(d.scan.subrange(0, d.len() as int) =~= d.scan);
}

/// An indexed scan table: six parallel columns aligned by row.
///
/// Retention time, mobility and mass-to-charge are single-precision floats
/// held as their bit patterns (`f32::to_bits`); intensity, frame index and
/// scan index are unsigned integers.
pub struct IndexedDataset {
    pub rt_values_min: Vec<u32>,
    pub mobility_values: Vec<u32>,
    pub mz_values: Vec<u32>,
    pub intensity_values: Vec<u32>,
    pub frame_indices: Vec<u32>,
    pub scan_indices: Vec<u32>,
}

impl View for IndexedDataset {
    type V = Columns;

    open spec fn view(&self) -> Columns {
        Columns {
            rt: self.rt_values_min@,
            mobility: self.mobility_values@,
            mz: self.mz_values@,
            intensity: self.intensity_values@,
            frame: self.frame_indices@,
            scan: self.scan_indices@,
        }
    }
}

impl IndexedDataset {
    pub open spec fn wf(&self) -> bool {
        self@.wf()
    }

    /// A table with no rows.
    pub fn empty() -> (r: IndexedDataset)
        ensures
            r@ == Columns::empty(),
            r.wf(),
    {
        IndexedDataset {
            rt_values_min: Vec::new(),
            mobility_values: Vec::new(),
            mz_values: Vec::new(),
            intensity_values: Vec::new(),
            frame_indices: Vec::new(),
            scan_indices: Vec::new(),
        }
    }

    /// Number of rows.
    pub fn len(&self) -> (r: usize)
        ensures
            r == self@.len(),
    {
        self.mz_values.len()
    }

    /// Whether all six columns have the same length.
    pub fn is_well_formed(&self) -> (r: bool)
        ensures
            r == self.wf(),
    {
        let n = self.mz_values.len();
        self.rt_values_min.len() == n && self.mobility_values.len() == n
            && self.intensity_values.len() == n && self.frame_indices.len() == n
            && self.scan_indices.len() == n
    }
}

} // verus!
