use vstd::prelude::*;
use vstd::slice::{slice_subrange, slice_to_vec};
use crate::dataset::{lemma_slice_concat, lemma_slice_full, Columns, IndexedDataset};

verus! {

/// Rows per shard when `n` rows are split `k` ways: `ceil(n / k)`.
pub open spec fn rows_per_shard(n: nat, k: nat) -> nat {
    if k == 0 {
        0
    } else {
        (n / k + if n % k == 0 { 0nat } else { 1nat }) as nat
    }
}

/// Number of shards that `split_into_shards` produces: those whose first
/// row lies below `n`.
pub open spec fn shard_count(n: nat, k: nat) -> nat {
    let r = rows_per_shard(n, k);
    if r == 0 {
        0
    } else {
        (n / r + if n % r == 0 { 0nat } else { 1nat }) as nat
    }
}

/// First row of shard `i`.
pub open spec fn shard_start(n: nat, k: nat, i: int) -> int {
    i * rows_per_shard(n, k)
}

/// One past the last row of shard `i`.
pub open spec fn shard_end(n: nat, k: nat, i: int) -> int {
    let e = (i + 1) * rows_per_shard(n, k);
    if e < n {
        e
    } else {
        n as int
    }
}

/// The row ranges of a `k`-way split of `d`, in shard order.
pub open spec fn split_spec(d: Columns, k: nat) -> Seq<Columns> {
    Seq::new(
        shard_count(d.len(), k),
        |i: int| d.slice(shard_start(d.len(), k, i), shard_end(d.len(), k, i)),
    )
}

/// Concatenation of a sequence of tables in order.
pub open spec fn merge_spec(s: Seq<Columns>) -> Columns
    decreases s.len(),
{
    if s.len() == 0 {
        Columns::empty()
    } else {
        merge_spec(s.drop_last()).concat(s.last())
    }
}

/// Ceiling division facts: a shard index is below the count exactly when
/// its first row is below `n`, and there are never more shards than asked.
pub proof fn lemma_shard_count(n: nat, k: nat)
    requires
        k >= 1,
    ensures
        n > 0 ==> rows_per_shard(n, k) >= 1,
        n == 0 ==> shard_count(n, k) == 0,
        shard_count(n, k) <= k,
        forall|i: int|
            0 <= i ==> (i < shard_count(n, k) <==> #[trigger] shard_start(n, k, i) < n),
{
    let r = rows_per_shard(n, k);
    let c = shard_count(n, k);
    assert(n == k * (n / k) + n % k) by (nonlinear_arith)
        requires
            k >= 1,
    ;
    assert(0 <= n % k < k) by (nonlinear_arith)
        requires
            k >= 1,
    ;
    if n == 0 {
        assert(n / k == 0) by (nonlinear_arith)
            requires
                k >= 1,
                n == 0,
        ;
        assert(r == 0);
    } else {
        assert(r >= 1) by (nonlinear_arith)
            requires
                n == k * (n / k) + n % k,
                0 <= n % k < k,
                r == n / k + if n % k == 0 { 0nat } else { 1nat },
                n > 0,
        ;
        // k * r >= n
        assert(k * r >= n) by (nonlinear_arith)
            requires
                n == k * (n / k) + n % k,
                0 <= n % k < k,
                r == n / k + if n % k == 0 { 0nat } else { 1nat },
        ;
        assert(n == r * (n / r) + n % r) by (nonlinear_arith)
            requires
                r >= 1,
        ;
        assert(0 <= n % r < r) by (nonlinear_arith)
            requires
                r >= 1,
        ;
        assert forall|i: int| 0 <= i implies (i < c <==> #[trigger] shard_start(n, k, i) < n) by {
            if i < c {
                // i <= c - 1, so i * r <= (c - 1) * r < n
                assert(i * r < n) by (nonlinear_arith)
                    requires
                        0 <= i < c,
                        r >= 1,
                        n == r * (n / r) + n % r,
                        0 <= n % r < r,
                        c == n / r + if n % r == 0 { 0nat } else { 1nat },
                ;
            } else {
                assert(i * r >= n) by (nonlinear_arith)
                    requires
                        i >= c,
                        r >= 1,
                        n == r * (n / r) + n % r,
                        0 <= n % r < r,
                        c == n / r + if n % r == 0 { 0nat } else { 1nat },
                ;
            }
        }
        if c > k {
            assert(shard_start(n, k, k as int) < n);
            assert(k * r >= n);
        }
    }
}

/// A contiguous row range of a table, with the mass values of its first and
/// last rows as a provenance tag (bit patterns, like the columns).
pub struct DataShard {
    pub rt_values_min: Vec<u32>,
    pub mobility_values: Vec<u32>,
    pub mz_values: Vec<u32>,
    pub intensity_values: Vec<u32>,
    pub frame_indices: Vec<u32>,
    pub scan_indices: Vec<u32>,
    pub mz_range: (u32, u32),
}

impl DataShard {
    /// The shard's rows as a table.
    pub open spec fn columns(&self) -> Columns {
        Columns {
            rt: self.rt_values_min@,
            mobility: self.mobility_values@,
            mz: self.mz_values@,
            intensity: self.intensity_values@,
            frame: self.frame_indices@,
            scan: self.scan_indices@,
        }
    }

    pub open spec fn wf(&self) -> bool {
        self.columns().wf()
    }

    /// Copies rows `[start, end)` of `data`, tagged with the mass values of
    /// the first and last of them.
    pub fn from_indexed_slice(data: &IndexedDataset, start: usize, end: usize) -> (r: DataShard)
        requires
            data.wf(),
            start < end <= data@.len(),
        ensures
            r.columns() == data@.slice(start as int, end as int),
            r.mz_range == (data@.mz[start as int], data@.mz[end - 1]),
            r.wf(),
    {
        let mz_min = data.mz_values[start];
        let mz_max = data.mz_values[end - 1];
        DataShard {
            rt_values_min: slice_to_vec(slice_subrange(data.rt_values_min.as_slice(), start, end)),
            mobility_values: slice_to_vec(
                slice_subrange(data.mobility_values.as_slice(), start, end),
            ),
            mz_values: slice_to_vec(slice_subrange(data.mz_values.as_slice(), start, end)),
            intensity_values: slice_to_vec(
                slice_subrange(data.intensity_values.as_slice(), start, end),
            ),
            frame_indices: slice_to_vec(slice_subrange(data.frame_indices.as_slice(), start, end)),
            scan_indices: slice_to_vec(slice_subrange(data.scan_indices.as_slice(), start, end)),
            mz_range: (mz_min, mz_max),
        }
    }

    /// Whether all six columns have the same length.
    pub fn is_well_formed(&self) -> (r: bool)
        ensures
            r == self.wf(),
    {
        let n = self.mz_values.len();
        self.rt_values_min.len() == n && self.mobility_values.len() == n
            && self.intensity_values.len() == n && self.frame_indices.len() == n
            && self.scan_indices.len() == n
    }

    /// Number of rows in the shard.
    pub fn point_count(&self) -> (r: usize)
        ensures
            r == self.columns().len(),
    {
        self.mz_values.len()
    }

    /// A copy of a whole table as one shard, with the given tag.
    pub fn copy_of(data: &IndexedDataset, mz_range: (u32, u32)) -> (r: DataShard)
        ensures
            r.columns() == data@,
            r.mz_range == mz_range,
    {
        DataShard {
            rt_values_min: slice_to_vec(data.rt_values_min.as_slice()),
            mobility_values: slice_to_vec(data.mobility_values.as_slice()),
            mz_values: slice_to_vec(data.mz_values.as_slice()),
            intensity_values: slice_to_vec(data.intensity_values.as_slice()),
            frame_indices: slice_to_vec(data.frame_indices.as_slice()),
            scan_indices: slice_to_vec(data.scan_indices.as_slice()),
            mz_range,
        }
    }

    /// A whole table as one shard, with the given tag.
    pub fn from_dataset(data: IndexedDataset, mz_range: (u32, u32)) -> (r: DataShard)
        ensures
            r.columns() == data@,
            r.mz_range == mz_range,
    {
        DataShard {
            rt_values_min: data.rt_values_min,
            mobility_values: data.mobility_values,
            mz_values: data.mz_values,
            intensity_values: data.intensity_values,
            frame_indices: data.frame_indices,
            scan_indices: data.scan_indices,
            mz_range,
        }
    }

    /// The shard's rows as a table, dropping the tag.
    pub fn into_dataset(self) -> (r: IndexedDataset)
        ensures
            r@ == self.columns(),
    {
        IndexedDataset {
            rt_values_min: self.rt_values_min,
            mobility_values: self.mobility_values,
            mz_values: self.mz_values,
            intensity_values: self.intensity_values,
            frame_indices: self.frame_indices,
            scan_indices: self.scan_indices,
        }
    }
}

/// Splits `data` into contiguous shards of `ceil(n / num_shards)` rows;
/// shards that would start at or past the end are left out.
pub fn split_into_shards(data: &IndexedDataset, num_shards: usize) -> (shards: Vec<DataShard>)
    requires
        data.wf(),
        num_shards >= 1 || data@.len() == 0,
    ensures
        shards@.len() == shard_count(data@.len(), num_shards as nat),
        shards@.len() <= num_shards,
        forall|i: int|
            0 <= i < shards@.len() ==> {
                &&& #[trigger] shards@[i].columns() == split_spec(data@, num_shards as nat)[i]
                &&& shards@[i].wf()
                &&& shards@[i].mz_range == (
                    data@.mz[shard_start(data@.len(), num_shards as nat, i)],
                    data@.mz[shard_end(data@.len(), num_shards as nat, i) - 1],
                )
            },
{
    let n = data.mz_values.len();
    if n == 0 {
        let none: Vec<DataShard> = Vec::new();
        proof {
            if num_shards > 0 {
                assert(0nat / (num_shards as nat) == 0) by (nonlinear_arith)
                    requires
                        num_shards > 0,
                ;
                assert(0nat % (num_shards as nat) == 0) by (nonlinear_arith)
                    requires
                        num_shards > 0,
                ;
            }
            assert(rows_per_shard(0, num_shards as nat) == 0);
            assert(none@.len() == 0);
        }
        return none;
    }
    let k = num_shards;
    let ghost gn = n as nat;
    let ghost gk = k as nat;
    proof {
        lemma_shard_count(gn, gk);
        assert(n == k * (n / k) + n % k) by (nonlinear_arith)
            requires
                k >= 1,
        ;
    }
    let q: usize = n / k;
    let rps: usize = if n % k == 0 {
        q
    } else {
        assert(q < n) by (nonlinear_arith)
            requires
                k >= 1,
                q == n / k,
                n % k != 0,
                n == k * (n / k) + n % k,
        ;
        q + 1
    };
    assert(rps == rows_per_shard(gn, gk));
    let mut shards: Vec<DataShard> = Vec::new();
    let mut start: usize = 0;
    let mut i: usize = 0;
    while start < n
        invariant
            data.wf(),
            n == data@.len(),
            gn == n,
            gk == k,
            k >= 1,
            rps == rows_per_shard(gn, gk),
            n > 0 ==> rps >= 1,
            shard_count(gn, gk) <= k,
            forall|j: int|
                0 <= j ==> (j < shard_count(gn, gk) <==> #[trigger] shard_start(gn, gk, j) < gn),
            i <= shard_count(gn, gk),
            start as int == if shard_start(gn, gk, i as int) < n {
                shard_start(gn, gk, i as int)
            } else {
                n as int
            },
            shards@.len() == i,
            forall|j: int|
                0 <= j < i ==> {
                    &&& #[trigger] shards@[j].columns() == split_spec(data@, gk)[j]
                    &&& shards@[j].wf()
                    &&& shards@[j].mz_range == (
                        data@.mz[shard_start(gn, gk, j)],
                        data@.mz[shard_end(gn, gk, j) - 1],
                    )
                },
        decreases n - start,
    {
        assert(shard_start(gn, gk, i as int) < n);
        assert(i < shard_count(gn, gk));
        let end: usize = if n - start > rps { start + rps } else { n };
        assert((i + 1) * rps == i * rps + rps) by (nonlinear_arith);
        assert(end == shard_end(gn, gk, i as int));
        let shard = DataShard::from_indexed_slice(data, start, end);
        shards.push(shard);
        i = i + 1;
        start = end;
    }
    proof {
        if i < shard_count(gn, gk) {
            assert(shard_start(gn, gk, i as int) < n);
        }
    }
    shards
}

/// Concatenates the shards' columns in shard order.
pub fn merge_shards(shards: Vec<DataShard>) -> (r: IndexedDataset)
    ensures
        r@ == merge_spec(shards@.map_values(|s: DataShard| s.columns())),
{
    let ghost views = shards@.map_values(|s: DataShard| s.columns());
    let mut result = IndexedDataset::empty();
    let mut i: usize = 0;
    let mut shards = shards;
    let ghost orig = shards@;
    while i < shards.len()
        invariant
            shards@.len() == orig.len(),
            views == orig.map_values(|s: DataShard| s.columns()),
            i <= shards@.len(),
            forall|j: int| i <= j < shards@.len() ==> #[trigger] shards@[j] == orig[j],
            result@ == merge_spec(views.take(i as int)),
        decreases shards@.len() - i,
    {
        let mut shard = DataShard::from_dataset(IndexedDataset::empty(), (0, 0));
        std::mem::swap(&mut shard, &mut shards[i]);
        assert(views.take(i + 1).drop_last() == views.take(i as int));
        let mut s = shard;
        result.rt_values_min.append(&mut s.rt_values_min);
        result.mobility_values.append(&mut s.mobility_values);
        result.mz_values.append(&mut s.mz_values);
        result.intensity_values.append(&mut s.intensity_values);
        result.frame_indices.append(&mut s.frame_indices);
        result.scan_indices.append(&mut s.scan_indices);
        i = i + 1;
    }
    assert(views.take(i as int) == views);
    result
}

/// The first `j` shards of a split merge to the rows before shard `j`.
proof fn lemma_merge_prefix(d: Columns, k: nat, j: int)
    requires
        d.wf(),
        k >= 1,
        1 <= j <= shard_count(d.len(), k),
    ensures
        merge_spec(split_spec(d, k).take(j)) == d.slice(0, shard_end(d.len(), k, j - 1)),
    decreases j,
{
    let n = d.len();
    let s = split_spec(d, k);
    let r = rows_per_shard(n, k);
    lemma_shard_count(n, k);
    assert(s.take(j).drop_last() == s.take(j - 1));
    assert(shard_start(n, k, j - 1) < n);
    assert(shard_start(n, k, j - 1) <= shard_end(n, k, j - 1)) by (nonlinear_arith)
        requires
            r >= 1,
            shard_start(n, k, j - 1) == (j - 1) * r,
            shard_start(n, k, j - 1) < n,
            shard_end(n, k, j - 1) == if (j - 1 + 1) * r < n {
                (j - 1 + 1) * r
            } else {
                n as int
            },
    ;
    assert(0 <= shard_start(n, k, j - 1)) by (nonlinear_arith)
        requires
            j >= 1,
            r >= 1,
            shard_start(n, k, j - 1) == (j - 1) * r,
    ;
    if j == 1 {
        assert(merge_spec(s.take(0)) == Columns::empty());
        assert(shard_start(n, k, 0) == 0) by (nonlinear_arith)
            requires
                shard_start(n, k, 0) == 0 * r,
        ;
        lemma_slice_concat(d, 0, 0, shard_end(n, k, 0));
        let e = d.slice(0, 0);
        assert(e.rt =~= Seq::empty());
        assert(e.mobility =~= Seq::empty());
        assert(e.mz =~= Seq::empty());
        assert(e.intensity =~= Seq::empty());
        assert(e.frame =~= Seq::empty());
        assert(e.scan =~= Seq::empty());
    } else {
        lemma_merge_prefix(d, k, j - 1);
        assert((j - 1) * r == (j - 2 + 1) * r);
        assert(shard_end(n, k, j - 2) == shard_start(n, k, j - 1));
        lemma_slice_concat(d, 0, shard_start(n, k, j - 1), shard_end(n, k, j - 1));
    }
}

/// Merging the shards of a split gives back the original table, for every
/// table (with any row count, including none) and every shard count of at
/// least one.
pub proof fn lemma_merge_split_round_trip(d: Columns, k: nat)
    requires
        d.wf(),
        k >= 1,
    ensures
        merge_spec(split_spec(d, k)) == d,
{
    let n = d.len();
    let s = split_spec(d, k);
    let c = shard_count(n, k);
    lemma_shard_count(n, k);
    if c == 0 {
        assert(n == 0) by {
            if n > 0 {
                assert(shard_start(n, k, 0) < n);
            }
        }
        assert(d.rt =~= Seq::empty());
        assert(d.mobility =~= Seq::empty());
        assert(d.mz =~= Seq::empty());
        assert(d.intensity =~= Seq::empty());
        assert(d.frame =~= Seq::empty());
        assert(d.scan =~= Seq::empty());
        assert(s.len() == 0);
    } else {
        let r = rows_per_shard(n, k);
        lemma_merge_prefix(d, k, c as int);
        assert(s.take(c as int) == s);
        assert(shard_start(n, k, c as int) >= n);
        assert(c * r == (c - 1 + 1) * r);
        assert(shard_end(n, k, c - 1) == n);
        lemma_slice_full(d);
    }
}

} // verus!
