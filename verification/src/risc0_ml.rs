//! The DLRM input as the RISC Zero benchmark ships it: the dense embeddings
//! and the sparse features merged into one flat vector, and split again in
//! the guest.
use vstd::prelude::*;
use crate::util::view2;

verus! {

/// Number of dense values: 26 embeddings of 64.
pub const DENSE_SIZE: usize = 1664;

/// Number of sparse features.
pub const SPARSE_SIZE: usize = 13;

/// `n` zeros.
pub open spec fn zeros(n: nat) -> Seq<i32> {
    Seq::new(n, |i: int| 0i32)
}

/// The rows of `rows` one after another.
pub open spec fn flatten(rows: Seq<Seq<i32>>) -> Seq<i32>
    decreases rows.len(),
{
    if rows.len() == 0 {
        Seq::empty()
    } else {
        flatten(rows.drop_last()) + rows.last()
    }
}

/// What `demerge_data` makes of a merged vector.
pub open spec fn spec_demerge(merged: Seq<i32>) -> (Seq<i32>, Seq<Seq<i32>>) {
    (
        merged.subrange(0, DENSE_SIZE as int),
        seq![merged.subrange(DENSE_SIZE as int, (DENSE_SIZE + SPARSE_SIZE) as int)],
    )
}

/// The dense values followed by every sparse row.
pub fn merge_data(dense: Vec<i32>, sparse: Vec<Vec<i32>>) -> (merged: Vec<i32>)
    ensures
        merged@ == dense@ + flatten(view2(sparse)),
{
    let ghost s = view2(sparse);
    let mut merged = crate::helper::copy_i32s(&dense);
    assert(s.take(0) =~= Seq::<Seq<i32>>::empty());
    assert(merged@ =~= dense@ + flatten(s.take(0)));
    for r in 0..sparse.len()
        invariant
            s == view2(sparse),
            merged@ == dense@ + flatten(s.take(r as int)),
    {
        let ghost before = merged@;
        let width = sparse[r].len();
        for c in 0..width
            invariant
                s == view2(sparse),
                0 <= r < sparse.len(),
                width == sparse[r as int].len(),
                merged@ == before + sparse[r as int]@.subrange(0, c as int),
        {
            merged.push(sparse[r][c]);
            assert(merged@ =~= before + sparse[r as int]@.subrange(0, c + 1));
        }
        assert(s.take(r + 1).drop_last() =~= s.take(r as int));
        assert(s.take(r + 1).last() == sparse[r as int]@);
        assert(sparse[r as int]@.subrange(0, sparse[r as int]@.len() as int) =~= sparse[r as int]@);
        assert(merged@ =~= dense@ + flatten(s.take(r + 1)));
    }
    assert(s.take(sparse.len() as int) =~= s);
    merged
}

/// Splits a merged vector into the 1664 dense values and one row of the 13
/// sparse features that follow them.
pub fn demerge_data(merged: Vec<i32>) -> (parts: (Vec<i32>, Vec<Vec<i32>>))
    requires
        merged.len() >= DENSE_SIZE + SPARSE_SIZE,
    ensures
        (parts.0@, view2(parts.1)) == spec_demerge(merged@),
{
    let mut dense: Vec<i32> = Vec::new();
    for i in 0..DENSE_SIZE
        invariant
            merged.len() >= DENSE_SIZE + SPARSE_SIZE,
            dense@ == merged@.subrange(0, i as int),
    {
        dense.push(merged[i]);
        assert(dense@ =~= merged@.subrange(0, i + 1));
    }
    let mut row: Vec<i32> = Vec::new();
    for i in 0..SPARSE_SIZE
        invariant
            merged.len() >= DENSE_SIZE + SPARSE_SIZE,
            row@ == merged@.subrange(DENSE_SIZE as int, DENSE_SIZE + i),
    {
        row.push(merged[DENSE_SIZE + i]);
        assert(row@ =~= merged@.subrange(DENSE_SIZE as int, DENSE_SIZE + i + 1));
    }
    let mut sparse: Vec<Vec<i32>> = Vec::new();
    sparse.push(row);
    assert(view2(sparse) =~= spec_demerge(merged@).1);
    (dense, sparse)
}

/// The all-zero DLRM input of the benchmark, merged.
pub fn gen_dlrm_data() -> (merged: Vec<i32>)
    ensures
        merged@ == zeros(DENSE_SIZE as nat) + flatten(seq![zeros(SPARSE_SIZE as nat)]),
{
    let mut dense: Vec<i32> = Vec::new();
    for i in 0..DENSE_SIZE
        invariant
            dense@ == zeros(i as nat),
    {
        dense.push(0);
        assert(dense@ =~= zeros((i + 1) as nat));
    }
    let mut sparse: Vec<Vec<i32>> = Vec::new();
    let mut temp: Vec<i32> = Vec::new();
    for j in 0..SPARSE_SIZE
        invariant
            temp@ == zeros(j as nat),
    {
        temp.push(0);
        assert(temp@ =~= zeros((j + 1) as nat));
    }
    sparse.push(temp);
    assert(view2(sparse) =~= seq![zeros(SPARSE_SIZE as nat)]);
    merge_data(dense, sparse)
}

/// Splitting a merged vector of 1664 dense values and one row of 13 sparse
/// features gives back the dense values and the sparse row.
pub proof fn lemma_demerge_merge(dense: Seq<i32>, sparse: Seq<Seq<i32>>)
    requires
        dense.len() == DENSE_SIZE,
        sparse.len() == 1,
        sparse[0].len() == SPARSE_SIZE,
    ensures
        spec_demerge(dense + flatten(sparse)) == (dense, sparse),
{
    assert(sparse.drop_last() =~= Seq::<Seq<i32>>::empty());
    assert(flatten(sparse.drop_last()) == Seq::<i32>::empty());
    assert(flatten(sparse) =~= sparse[0]);
    let m = dense + flatten(sparse);
    assert(m.subrange(0, DENSE_SIZE as int) =~= dense);
    assert(m.subrange(DENSE_SIZE as int, (DENSE_SIZE + SPARSE_SIZE) as int) =~= sparse[0]);
    assert(seq![sparse[0]] =~= sparse);
}

/// Merging what `demerge_data` split off a vector of exactly 1677 values
/// gives back that vector.
pub proof fn lemma_merge_demerge(merged: Seq<i32>)
    requires
        merged.len() == DENSE_SIZE + SPARSE_SIZE,
    ensures
        spec_demerge(merged).0 + flatten(spec_demerge(merged).1) == merged,
{
    let parts = spec_demerge(merged);
    assert(parts.1.drop_last() =~= Seq::<Seq<i32>>::empty());
    assert(flatten(parts.1.drop_last()) == Seq::<i32>::empty());
    assert(flatten(parts.1) =~= parts.1[0]);
    assert(parts.0 + flatten(parts.1) =~= merged);
}

} // verus!
