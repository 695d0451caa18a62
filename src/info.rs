use vstd::prelude::*;
use crate::policy::StreamKind;
use crate::store::{decimal, shard_file_spec, stream_label};

verus! {

/// `.cache`, the ending of every shard file name.
pub open spec fn cache_suffix() -> Seq<u8> {
    seq![46u8, 99u8, 97u8, 99u8, 104u8, 101u8]
}

pub open spec fn ends_with(b: Seq<u8>, suffix: Seq<u8>) -> bool {
    b.len() >= suffix.len() && b.subrange(b.len() - suffix.len(), b.len() as int) == suffix
}

pub open spec fn is_digit(b: u8) -> bool {
    48 <= b && b <= 57
}

/// Number of ASCII digits at the end of `b`.
pub open spec fn trailing_digits(b: Seq<u8>) -> nat
    decreases b.len(),
{
    if b.len() == 0 || !is_digit(b.last()) {
        0
    } else {
        1 + trailing_digits(b.drop_last())
    }
}

/// `.shard_`
pub open spec fn shard_marker() -> Seq<u8> {
    seq![46u8, 115u8, 104u8, 97u8, 114u8, 100u8, 95u8]
}

/// `.` followed by a stream's label.
pub open spec fn dotted_label(stream: StreamKind) -> Seq<u8> {
    seq![46u8] + stream_label(stream)
}

/// The source a file belongs to: for a file named
/// `<source>.<stream>.shard_<digits>.cache`, the `<source>` part; other
/// files belong to none.
pub open spec fn file_source(name: Seq<u8>) -> Option<Seq<u8>> {
    if !ends_with(name, cache_suffix()) {
        None
    } else {
        let r1 = name.take(name.len() - 6);
        let d = trailing_digits(r1);
        if d == 0 {
            None
        } else {
            let r2 = r1.take(r1.len() - d);
            if !ends_with(r2, shard_marker()) {
                None
            } else {
                let r3 = r2.take(r2.len() - 7);
                if ends_with(r3, dotted_label(StreamKind::Primary)) {
                    Some(r3.take(r3.len() - 12))
                } else if ends_with(r3, dotted_label(StreamKind::FragmentWindow)) {
                    Some(r3.take(r3.len() - 11))
                } else {
                    None
                }
            }
        }
    }
}

proof fn lemma_decimal_digits(n: nat)
    ensures
        decimal(n).len() >= 1,
        forall|j: int| 0 <= j < decimal(n).len() ==> is_digit(#[trigger] decimal(n)[j]),
    decreases n,
{
    if n >= 10 {
        lemma_decimal_digits(n / 10);
        let p = decimal(n / 10);
        assert forall|j: int| 0 <= j < decimal(n).len() implies is_digit(#[trigger] decimal(n)[j]) by {
            if j < p.len() {
                assert(decimal(n)[j] == p[j]);
            }
        }
    }
}

proof fn lemma_trailing_digits(x: Seq<u8>, ds: Seq<u8>)
    requires
        x.len() > 0,
        !is_digit(x.last()),
        forall|j: int| 0 <= j < ds.len() ==> is_digit(#[trigger] ds[j]),
    ensures
        trailing_digits(x + ds) == ds.len(),
    decreases ds.len(),
{
    if ds.len() == 0 {
        assert(x + ds =~= x);
    } else {
        assert((x + ds).drop_last() =~= x + ds.drop_last());
        assert((x + ds).last() == ds.last());
        lemma_trailing_digits(x, ds.drop_last());
    }
}

/// Reading the source back from a shard file name gives the source it was
/// made from, for every source name (dots included), stream and index.
pub proof fn lemma_file_source_of_shard_file(source: Seq<u8>, stream: StreamKind, index: nat)
    ensures
        file_source(shard_file_spec(source, stream, index)) == Some(source),
{
    let lab = dotted_label(stream);
    let ds = decimal(index);
    let name = shard_file_spec(source, stream, index);
    let x = source + lab + shard_marker();
    assert(name =~= x + ds + cache_suffix());
    assert(name.subrange(name.len() - 6, name.len() as int) =~= cache_suffix());
    let r1 = name.take(name.len() - 6);
    assert(r1 =~= x + ds);
    lemma_decimal_digits(index);
    assert(x.last() == 95u8);
    lemma_trailing_digits(x, ds);
    let r2 = r1.take(r1.len() - ds.len());
    assert(r2 =~= x);
    assert(r2.subrange(r2.len() - 7, r2.len() as int) =~= shard_marker());
    let r3 = r2.take(r2.len() - 7);
    assert(r3 =~= source + lab);
    match stream {
        StreamKind::Primary => {
            assert(r3.subrange(r3.len() - 12, r3.len() as int) =~= dotted_label(StreamKind::Primary));
            assert(r3.take(r3.len() - 12) =~= source);
        },
        StreamKind::FragmentWindow => {
            if ends_with(r3, dotted_label(StreamKind::Primary)) {
                let t = r3.subrange(r3.len() - 12, r3.len() as int);
                assert(t[11] == r3.last());
                assert(dotted_label(StreamKind::Primary)[11] == 100u8);
                assert(r3.last() == 119u8);
            }
            assert(r3.subrange(r3.len() - 11, r3.len() as int) =~= dotted_label(
                StreamKind::FragmentWindow,
            ));
            assert(r3.take(r3.len() - 11) =~= source);
        },
    }
}

/// Total size of the shard files of source `key` among `files`.
pub open spec fn bytes_for(files: Seq<(Vec<u8>, u64)>, key: Seq<u8>) -> nat
    decreases files.len(),
{
    if files.len() == 0 {
        0
    } else {
        bytes_for(files.drop_last(), key) + if file_source(files.last().0@) == Some(key) {
            files.last().1 as nat
        } else {
            0nat
        }
    }
}

/// Some file of `files` is a shard file of source `key`.
pub open spec fn has_source(files: Seq<(Vec<u8>, u64)>, key: Seq<u8>) -> bool {
    exists|i: int| 0 <= i < files.len() && file_source(files[i].0@) == Some(key)
}

pub open spec fn saturate(n: nat) -> u64 {
    if n > u64::MAX {
        u64::MAX
    } else {
        n as u64
    }
}

/// Whether the `suffix@.len()` bytes of `name` that end at `end` are `suffix`.
fn ends_at(name: &[u8], end: usize, suffix: &[u8]) -> (r: bool)
    requires
        end <= name@.len(),
    ensures
        r == ends_with(name@.take(end as int), suffix@),
{
    let k = suffix.len();
    if k > end {
        return false;
    }
    let mut i: usize = 0;
    while i < k
        invariant
            k == suffix@.len(),
            k <= end,
            end <= name@.len(),
            i <= k,
            forall|j: int| 0 <= j < i ==> name@[end - k + j] == suffix@[j],
        decreases k - i,
    {
        if name[end - k + i] != suffix[i] {
            proof {
                let t = name@.take(end as int);
                if t.subrange(end - k, end as int) == suffix@ {
                    assert(t.subrange(end - k, end as int)[i as int] == name@[end - k + i]);
                }
            }
            return false;
        }
        i = i + 1;
    }
    assert(name@.take(end as int).subrange(end - k, end as int) =~= suffix@);
    true
}

/// The source of a file, by its name (see `file_source`).
pub fn source_of_cache_file(name: &[u8]) -> (r: Option<Vec<u8>>)
    ensures
        r matches Some(v) ==> file_source(name@) == Some(v@),
        r is None ==> file_source(name@) is None,
{
    let n = name.len();
    assert(name@.take(n as int) =~= name@);
    let cache: [u8; 6] = [46, 99, 97, 99, 104, 101];
    assert(cache@ =~= cache_suffix());
    if !ends_at(name, n, &cache) {
        return None;
    }
    let e1 = n - 6;
    let ghost r1 = name@.take(e1 as int);
    let mut j: usize = e1;
    while j > 0 && 48 <= name[j - 1] && name[j - 1] <= 57
        invariant
            j <= e1,
            e1 <= name@.len(),
            r1 == name@.take(e1 as int),
            trailing_digits(r1) == (e1 - j) + trailing_digits(name@.take(j as int)),
        decreases j,
    {
        assert(name@.take(j as int).drop_last() =~= name@.take(j - 1));
        j = j - 1;
    }
    proof {
        if j == 0 {
            assert(name@.take(0) =~= Seq::<u8>::empty());
        }
    }
    let d = e1 - j;
    if d == 0 {
        return None;
    }
    assert(r1.take(r1.len() - d) =~= name@.take(j as int));
    let marker: [u8; 7] = [46, 115, 104, 97, 114, 100, 95];
    assert(marker@ =~= shard_marker());
    if !ends_at(name, j, &marker) {
        return None;
    }
    let e3 = j - 7;
    assert(name@.take(j as int).take(j - 7) =~= name@.take(e3 as int));
    let primary: [u8; 12] = [46, 109, 115, 49, 95, 105, 110, 100, 101, 120, 101, 100];
    assert(primary@ =~= dotted_label(StreamKind::Primary));
    let window: [u8; 11] = [46, 109, 115, 50, 95, 119, 105, 110, 100, 111, 119];
    assert(window@ =~= dotted_label(StreamKind::FragmentWindow));
    let keep: usize;
    if ends_at(name, e3, &primary) {
        keep = e3 - 12;
    } else if ends_at(name, e3, &window) {
        keep = e3 - 11;
    } else {
        return None;
    }
    assert(name@.take(e3 as int).take(keep as int) =~= name@.take(keep as int));
    let v = vstd::slice::slice_to_vec(vstd::slice::slice_subrange(name, 0, keep));
    assert(v@ =~= name@.take(keep as int));
    Some(v)
}

fn bytes_equal(a: &[u8], b: &[u8]) -> (r: bool)
    ensures
        r == (a@ == b@),
{
    if a.len() != b.len() {
        return false;
    }
    let mut i: usize = 0;
    while i < a.len()
        invariant
            i <= a@.len(),
            a@.len() == b@.len(),
            forall|j: int| 0 <= j < i ==> a@[j] == b@[j],
        decreases a@.len() - i,
    {
        if a[i] != b[i] {
            return false;
        }
        i = i + 1;
    }
    assert(a@ =~= b@);
    true
}

/// Total size of the shard files of each source among `files` (each a
/// name and a size in bytes), the source being the whole name before
/// `.<stream>.shard_<index>.cache`: every source that has a shard file appears
/// once, in the order of its first file, with its total (saturated at the
/// largest `u64`). Files that are not shard files are left out.
pub fn cache_totals(files: &Vec<(Vec<u8>, u64)>) -> (r: Vec<(Vec<u8>, u64)>)
    ensures
        forall|j: int| 0 <= j < r@.len() ==> (#[trigger] r@[j]).1 == saturate(bytes_for(files@, r@[j].0@)),
        forall|j: int| 0 <= j < r@.len() ==> has_source(files@, (#[trigger] r@[j]).0@),
        forall|i: int|
            0 <= i < files@.len() && (#[trigger] file_source(files@[i].0@)) is Some ==> exists|j: int|
                0 <= j < r@.len() && Some(r@[j].0@) == file_source(files@[i].0@),
        forall|j1: int, j2: int|
            0 <= j1 < r@.len() && 0 <= j2 < r@.len() && j1 != j2 ==> (#[trigger] r@[j1]).0@
                != (#[trigger] r@[j2]).0@,
{
    let mut names: Vec<Vec<u8>> = Vec::new();
    let mut totals: Vec<u64> = Vec::new();
    let mut i: usize = 0;
    while i < files.len()
        invariant
            i <= files@.len(),
            names@.len() == totals@.len(),
            forall|j: int|
                0 <= j < names@.len() ==> (#[trigger] totals@[j]) == saturate(
                    bytes_for(files@.take(i as int), names@[j]@),
                ),
            forall|j: int|
                #![trigger names@[j]]
                0 <= j < names@.len() ==> exists|k: int|
                    0 <= k < i && file_source(files@[k].0@) == Some(names@[j]@),
            forall|k: int|
                0 <= k < i && (#[trigger] file_source(files@[k].0@)) is Some ==> exists|j: int|
                    0 <= j < names@.len() && Some(names@[j]@) == file_source(files@[k].0@),
            forall|j1: int, j2: int|
                0 <= j1 < names@.len() && 0 <= j2 < names@.len() && j1 != j2 ==> (#[trigger] names@[j1])@
                    != (#[trigger] names@[j2])@,
        decreases files@.len() - i,
    {
        let ghost prev = files@.take(i as int);
        let ghost next = files@.take(i + 1);
        assert(next.drop_last() =~= prev);
        let size = files[i].1;
        let ghost old_names = names@;
        let ghost mut wj: int = 0;
        match source_of_cache_file(files[i].0.as_slice()) {
            None => {
                proof {
                    assert forall|j: int| 0 <= j < names@.len() implies (#[trigger] totals@[j])
                        == saturate(bytes_for(next, names@[j]@)) by {
                        assert(bytes_for(next, names@[j]@) == bytes_for(prev, names@[j]@));
                    }
                }
            },
            Some(src) => {
                let mut found = false;
                let mut j: usize = 0;
                while j < names.len() && !found
                    invariant
                        j <= names@.len(),
                        found ==> j < names@.len() && names@[j as int]@ == src@,
                        forall|m: int| 0 <= m < j ==> (#[trigger] names@[m])@ != src@,
                    decreases names@.len() - j, if found { 0int } else { 1int },
                {
                    if bytes_equal(names[j].as_slice(), src.as_slice()) {
                        found = true;
                    } else {
                        j = j + 1;
                    }
                }
                if found {
                    let t = totals[j];
                    let nt: u64 = if t <= u64::MAX - size { t + size } else { u64::MAX };
                    totals.set(j, nt);
                    proof {
                        wj = j as int;
                        assert forall|m: int| 0 <= m < names@.len() implies (#[trigger] totals@[m])
                            == saturate(bytes_for(next, names@[m]@)) by {
                            if m != j {
                                assert(names@[m]@ != names@[j as int]@);
                            }
                        }
                    }
                } else {
                    proof {
                        assert(bytes_for(prev, src@) == 0) by {
                            lemma_absent_source(prev, src@, names@);
                        }
                    }
                    names.push(src);
                    totals.push(size);
                    proof {
                        let nl = names@.len() - 1;
                        wj = nl;
                        assert(names@[nl]@ == file_source(files@[i as int].0@)->Some_0);
                        assert forall|m: int| 0 <= m < names@.len() implies (#[trigger] totals@[m])
                            == saturate(bytes_for(next, names@[m]@)) by {
                            if m < nl {
                                assert(names@[m]@ != names@[nl]@);
                            }
                        }
                        assert forall|m: int|
                            #![trigger names@[m]]
                            0 <= m < names@.len() implies exists|k: int|
                            0 <= k < i + 1 && file_source(files@[k].0@) == Some(names@[m]@) by {
                            if m == nl {
                                assert(file_source(files@[i as int].0@) == Some(names@[m]@));
                            }
                        }
                    }
                }
            },
        }
        proof {
            assert forall|k: int|
                0 <= k < i + 1 && (#[trigger] file_source(files@[k].0@)) is Some implies exists|j: int|
                0 <= j < names@.len() && Some(names@[j]@) == file_source(files@[k].0@) by {
                if k < i {
                    let j0 = choose|j0: int|
                        0 <= j0 < old_names.len() && Some(old_names[j0]@) == file_source(
                            files@[k].0@,
                        );
                    assert(names@[j0] == old_names[j0]);
                } else {
                    assert(0 <= wj < names@.len() && Some(names@[wj]@) == file_source(
                        files@[k].0@,
                    ));
                }
            }
        }
        i = i + 1;
    }
    assert(files@.take(i as int) =~= files@);
    let ghost gn = names@;
    let ghost gt = totals@;
    let count = names.len();
    let mut out: Vec<(Vec<u8>, u64)> = Vec::new();
    let mut j: usize = 0;
    for n in it: names.into_iter()
        invariant
            it.seq() == gn,
            j == it.index(),
            gt == totals@,
            gn.len() == gt.len(),
            gn.len() == count,
            out@.len() == j,
            forall|m: int| 0 <= m < j ==> (#[trigger] out@[m]).0@ == gn[m]@ && out@[m].1 == gt[m],
    {
        assert(j < count);
        out.push((n, totals[j]));
        j = j + 1;
    }
    proof {
        assert forall|m: int| 0 <= m < out@.len() implies has_source(files@, (#[trigger] out@[m]).0@) by {
            assert(gn[m]@ == out@[m].0@);
            let k = choose|k: int| 0 <= k < files@.len() && file_source(files@[k].0@) == Some(gn[m]@);
            assert(file_source(files@[k].0@) == Some(out@[m].0@));
        }
        assert forall|k: int|
            0 <= k < files@.len() && (#[trigger] file_source(files@[k].0@)) is Some implies exists|m: int|
            0 <= m < out@.len() && Some(out@[m].0@) == file_source(files@[k].0@) by {
            let m = choose|m: int| 0 <= m < gn.len() && Some(gn[m]@) == file_source(files@[k].0@);
            assert(out@[m].0@ == gn[m]@);
        }
        assert forall|j1: int, j2: int|
            0 <= j1 < out@.len() && 0 <= j2 < out@.len() && j1 != j2 implies (#[trigger] out@[j1]).0@
                != (#[trigger] out@[j2]).0@ by {
            assert(out@[j1].0@ == gn[j1]@);
            assert(out@[j2].0@ == gn[j2]@);
        }
    }
    out
}

proof fn lemma_absent_source(files: Seq<(Vec<u8>, u64)>, key: Seq<u8>, names: Seq<Vec<u8>>)
    requires
        forall|k: int|
            0 <= k < files.len() && (#[trigger] file_source(files[k].0@)) is Some ==> exists|j: int|
                0 <= j < names.len() && Some(names[j]@) == file_source(files[k].0@),
        forall|m: int| 0 <= m < names.len() ==> (#[trigger] names[m])@ != key,
    ensures
        bytes_for(files, key) == 0,
    decreases files.len(),
{
    if files.len() > 0 {
        let p = files.drop_last();
        assert forall|k: int|
            0 <= k < p.len() && (#[trigger] file_source(p[k].0@)) is Some implies exists|j: int|
                0 <= j < names.len() && Some(names[j]@) == file_source(p[k].0@) by {
            assert(p[k] == files[k]);
            assert(file_source(files[k].0@) is Some);
        }
        lemma_absent_source(p, key, names);
        let last = files.len() - 1;
        if file_source(files.last().0@) == Some(key) {
            assert(file_source(files[last].0@) is Some);
        }
    }
}

} // verus!
