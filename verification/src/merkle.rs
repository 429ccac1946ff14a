//! Merkle-path verification with Keccak-256: the root is recomputed from a
//! leaf hash and the sibling hashes along its path.
use vstd::prelude::*;
use sha3::Digest;

verus! {

/// The Keccak-256 digest of `data`, as computed by `sha3::Keccak256`.
pub uninterp spec fn keccak256(data: Seq<u8>) -> Seq<u8>;

/// Calls `sha3::Keccak256::digest` on `data`. Trusted: the 32-byte result is
/// `keccak256(data)`, a function of `data` alone.
#[verifier::external_body]
fn keccak256_digest(data: &[u8]) -> (r: Vec<u8>)
    ensures
        r@ == keccak256(data@),
        r@.len() == 32,
{
    sha3::Keccak256::digest(data).to_vec()
}

/// The views of a sequence of byte strings.
pub open spec fn byte_rows(v: Vec<Vec<u8>>) -> Seq<Seq<u8>> {
    Seq::new(v.len() as nat, |i: int| v[i]@)
}

/// `a` followed by `b`.
pub fn concat(a: &[u8], b: &[u8]) -> (c: Vec<u8>)
    ensures
        c@ == a@ + b@,
{
    let mut c: Vec<u8> = Vec::new();
    for i in 0..a.len()
        invariant
            c@ == a@.subrange(0, i as int),
    {
        c.push(a[i]);
        assert(c@ =~= a@.subrange(0, i + 1));
    }
    assert(a@.subrange(0, a@.len() as int) =~= a@);
    for j in 0..b.len()
        invariant
            c@ == a@ + b@.subrange(0, j as int),
    {
        c.push(b[j]);
        assert(c@ =~= a@ + b@.subrange(0, j + 1));
    }
    assert(b@.subrange(0, b@.len() as int) =~= b@);
    c
}

/// The Keccak-256 hash of the single byte `input`.
pub fn hash_elem(input: u8) -> (h: Vec<u8>)
    ensures
        h@ == keccak256(seq![input]),
        h@.len() == 32,
{
    let buf: [u8; 1] = [input];
    let h = keccak256_digest(&buf);
    assert(buf@ =~= seq![input]);
    h
}

/// The hash reached from `start` after folding in the first `n` path elements:
/// each step hashes the current hash followed by the next element.
pub open spec fn merkle_fold(start: Seq<u8>, path: Seq<Seq<u8>>, n: int) -> Seq<u8>
    decreases n,
{
    if n <= 0 {
        start
    } else {
        keccak256(merkle_fold(start, path, n - 1) + path[n - 1])
    }
}

/// The root reached from `leaf` along the whole path.
pub open spec fn spec_merkle_root(leaf: Seq<u8>, path: Seq<Seq<u8>>) -> Seq<u8> {
    merkle_fold(leaf, path, path.len() as int)
}

/// Recomputes the Merkle root from a leaf hash and a non-empty path.
pub fn merkle_root(leaf: &[u8], path: &Vec<Vec<u8>>) -> (root: Vec<u8>)
    requires
        path.len() >= 1,
    ensures
        root@ == spec_merkle_root(leaf@, byte_rows(*path)),
{
    let ghost p = byte_rows(*path);
    let first = concat(leaf, path[0].as_slice());
    let mut buf = keccak256_digest(first.as_slice());
    assert(p[0] == path[0]@);
    assert(merkle_fold(leaf@, p, 0) == leaf@);
    assert(buf@ == merkle_fold(leaf@, p, 1));
    for i in 1..path.len()
        invariant
            p == byte_rows(*path),
            buf@ == merkle_fold(leaf@, p, i as int),
    {
        assert(p[i as int] == path[i as int]@);
        let next = concat(buf.as_slice(), path[i].as_slice());
        buf = keccak256_digest(next.as_slice());
    }
    buf
}

/// `1` when `root` is the root reached from `leaf` along `path`, else `0`.
pub open spec fn spec_verify_merkle_path(leaf: Seq<u8>, path: Seq<Seq<u8>>, root: Seq<u8>) -> i32 {
    if spec_merkle_root(leaf, path) == root {
        1
    } else {
        0
    }
}

/// Whether two byte strings are equal.
pub fn bytes_equal(a: &[u8], b: &[u8]) -> (eq: bool)
    ensures
        eq == (a@ == b@),
{
    if a.len() != b.len() {
        return false;
    }
    for i in 0..a.len()
        invariant
            a.len() == b.len(),
            forall|t: int| 0 <= t < i ==> a@[t] == b@[t],
    {
        if a[i] != b[i] {
            return false;
        }
    }
    assert(a@ =~= b@);
    true
}

/// Checks a Merkle path: `1` when the root recomputed from `leaf` along the
/// non-empty `path` equals `root`, `0` otherwise.
pub fn verify_merkle_path(leaf: &[u8], path: &Vec<Vec<u8>>, root: &[u8]) -> (result: i32)
    requires
        path.len() >= 1,
    ensures
        result == spec_verify_merkle_path(leaf@, byte_rows(*path), root@),
{
    let buf = merkle_root(leaf, path);
    let mut result: i32 = 1;
    if !bytes_equal(buf.as_slice(), root) {
        result = 0;
    }
    result
}

/// The hashes of the benchmark's path elements `1, 2, ..., 10`.
pub open spec fn bench_path() -> Seq<Seq<u8>> {
    Seq::new(10, |i: int| keccak256(seq![(i + 1) as u8]))
}

/// Builds the benchmark's input: the hash of 12 as the leaf, the hashes of
/// `1, ..., 10` as the path, and the root that they lead to.
pub fn merkle_bench_input() -> (input: (Vec<u8>, Vec<Vec<u8>>, Vec<u8>))
    ensures
        input.0@ == keccak256(seq![12u8]),
        byte_rows(input.1) == bench_path(),
        input.2@ == spec_merkle_root(keccak256(seq![12u8]), bench_path()),
{
    let leaf = hash_elem(12);
    let mut path: Vec<Vec<u8>> = Vec::new();
    for x in 1..11u8
        invariant
            path.len() == x - 1,
            forall|t: int| 0 <= t < path.len() ==> #[trigger] path[t]@ == bench_path()[t],
    {
        path.push(hash_elem(x));
    }
    assert(byte_rows(path) =~= bench_path());
    let root = merkle_root(leaf.as_slice(), &path);
    (leaf, path, root)
}

/// The root computed for a path is accepted for that path.
pub proof fn lemma_recomputed_root_verifies(leaf: Seq<u8>, path: Seq<Seq<u8>>)
    ensures
        spec_verify_merkle_path(leaf, path, spec_merkle_root(leaf, path)) == 1,
{
}

/// Folding a path only reads its first `n` elements.
proof fn lemma_fold_prefix(start: Seq<u8>, path: Seq<Seq<u8>>, longer: Seq<Seq<u8>>, n: int)
    requires
        0 <= n <= path.len(),
        n <= longer.len(),
        forall|t: int| 0 <= t < n ==> #[trigger] longer[t] == path[t],
    ensures
        merkle_fold(start, longer, n) == merkle_fold(start, path, n),
    decreases n,
{
    if n > 0 {
        lemma_fold_prefix(start, path, longer, n - 1);
    }
}

/// The path is folded in its given order: the root along a one-element path
/// is the hash of the leaf followed by that element, the root along a path
/// with one more element `e` at its end is the hash of the root along the
/// shorter path followed by `e`, and so the hash after `n + 1` steps is the
/// hash of the hash after `n` steps followed by `path[n]`.
pub proof fn lemma_merkle_root_steps(leaf: Seq<u8>, path: Seq<Seq<u8>>, e: Seq<u8>)
    ensures
        spec_merkle_root(leaf, seq![e]) == keccak256(leaf + e),
        spec_merkle_root(leaf, path.push(e)) == keccak256(spec_merkle_root(leaf, path) + e),
        forall|n: int|
            0 <= n < path.len() ==> #[trigger] spec_merkle_root(leaf, path.take(n + 1)) == keccak256(
                spec_merkle_root(leaf, path.take(n)) + path[n],
            ),
{
    let one = seq![e];
    assert(one.len() == 1 && one[0] == e);
    assert(merkle_fold(leaf, one, 0) == leaf);
    let longer = path.push(e);
    lemma_fold_prefix(leaf, path, longer, path.len() as int);
    assert(longer[path.len() as int] == e);
    assert forall|n: int| 0 <= n < path.len() implies #[trigger] spec_merkle_root(leaf, path.take(n + 1))
        == keccak256(spec_merkle_root(leaf, path.take(n)) + path[n]) by {
        let a = path.take(n + 1);
        let b = path.take(n);
        lemma_fold_prefix(leaf, b, a, n);
        assert(a[n] == path[n]);
    }
}

} // verus!
