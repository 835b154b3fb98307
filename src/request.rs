use vstd::prelude::*;

use crate::error::EngineError;
use crate::field::FieldElement;

verus! {

/// Number of field elements in one chunk.
pub const CHUNK_LEN: usize = 256;

/// `2` to the power `d`.
pub open spec fn pow2(d: nat) -> nat
    decreases d,
{
    if d == 0 {
        1
    } else {
        2 * pow2((d - 1) as nat)
    }
}

/// The sequences laid end to end, in order.
pub open spec fn flatten_chunks(cs: Seq<Seq<FieldElement>>) -> Seq<FieldElement>
    decreases cs.len(),
{
    if cs.len() == 0 {
        Seq::empty()
    } else {
        flatten_chunks(cs.drop_last()) + cs.last()
    }
}

/// What one leaf of a request holds.
pub struct LeafModel {
    pub chunk: Seq<FieldElement>,
    pub leaf_hash: FieldElement,
    pub path_index: int,
    pub siblings: Seq<FieldElement>,
}

/// What a whole request holds.
pub struct RequestModel {
    pub leaves: Seq<LeafModel>,
    pub root: FieldElement,
    pub salt: FieldElement,
    pub pubkey: Option<FieldElement>,
}

/// The decoded fields of a request, as either wire format carries them.
pub struct Parts {
    pub chunks: Seq<Seq<FieldElement>>,
    pub siblings: Seq<FieldElement>,
    pub hashes: Seq<FieldElement>,
    pub path: Seq<int>,
    pub root: FieldElement,
    pub salt: FieldElement,
    pub pubkey: Option<FieldElement>,
}

/// The number of siblings each leaf carries, that is the depth of the tree.
pub open spec fn depth_of(p: Parts) -> nat {
    p.siblings.len() / p.hashes.len()
}

/// The structural invariants of a request: one chunk of 256 elements, one
/// hash and one path index per leaf; as many siblings for every leaf; a
/// power-of-two number of leaves whose exponent is that sibling count; and
/// path indices that are distinct and below the number of leaves.
pub open spec fn parts_valid(p: Parts) -> bool {
    let n = p.hashes.len();
    &&& n > 0
    &&& p.chunks.len() == n
    &&& p.path.len() == n
    &&& forall|i: int| 0 <= i < n ==> (#[trigger] p.chunks[i]).len() == CHUNK_LEN
    &&& p.siblings.len() % n == 0
    &&& pow2(depth_of(p)) == n
    &&& forall|i: int| 0 <= i < n ==> 0 <= #[trigger] p.path[i] < n
    &&& forall|i: int, j: int|
        0 <= i < n && 0 <= j < n && i != j ==> #[trigger] p.path[i] != #[trigger] p.path[j]
}

/// Leaf `i` of the request built from `p`: its chunk, hash and path index,
/// and the `i`-th run of siblings.
pub open spec fn leaf_of(p: Parts, i: int) -> LeafModel {
    let d = depth_of(p) as int;
    LeafModel {
        chunk: p.chunks[i],
        leaf_hash: p.hashes[i],
        path_index: p.path[i],
        siblings: p.siblings.subrange(i * d, i * d + d),
    }
}

/// The request built from valid parts.
pub open spec fn request_of(p: Parts) -> RequestModel {
    RequestModel {
        leaves: Seq::new(p.hashes.len(), |i: int| leaf_of(p, i)),
        root: p.root,
        salt: p.salt,
        pubkey: p.pubkey,
    }
}

/// The canonical decode step shared by both wire formats.
pub open spec fn assembled(p: Parts) -> Result<RequestModel, EngineError> {
    if parts_valid(p) {
        Ok(request_of(p))
    } else {
        Err(EngineError::InvalidArgument)
    }
}

/// The parts that exec values stand for.
pub open spec fn parts_of(
    chunks: Seq<Vec<FieldElement>>,
    siblings: Seq<FieldElement>,
    hashes: Seq<FieldElement>,
    path: Seq<i128>,
    root: FieldElement,
    salt: FieldElement,
    pubkey: Option<FieldElement>,
) -> Parts {
    Parts {
        chunks: chunks.map_values(|c: Vec<FieldElement>| c@),
        siblings,
        hashes,
        path: path.map_values(|x: i128| x as int),
        root,
        salt,
        pubkey,
    }
}

/// One leaf of a proof request.
pub struct LeafProof {
    pub chunk: Vec<FieldElement>,
    pub leaf_hash: FieldElement,
    pub path_index: usize,
    pub siblings: Vec<FieldElement>,
}

impl View for LeafProof {
    type V = LeafModel;

    open spec fn view(&self) -> LeafModel {
        LeafModel {
            chunk: self.chunk@,
            leaf_hash: self.leaf_hash,
            path_index: self.path_index as int,
            siblings: self.siblings@,
        }
    }
}

/// A validated, owned proof request: everything a witness is built from.
pub struct ProofRequest {
    pub leaves: Vec<LeafProof>,
    pub root: FieldElement,
    pub salt: FieldElement,
    pub pubkey: Option<FieldElement>,
}

impl View for ProofRequest {
    type V = RequestModel;

    open spec fn view(&self) -> RequestModel {
        RequestModel {
            leaves: self.leaves@.map_values(|l: LeafProof| l@),
            root: self.root,
            salt: self.salt,
            pubkey: self.pubkey,
        }
    }
}

/// The circuit's inputs, in the order the leaves come: all chunk elements,
/// all siblings, the leaf hashes and the path indices, then the root, the
/// salt and the public key if there is one.
pub struct WitnessInputs {
    pub chunks: Vec<FieldElement>,
    pub siblings: Vec<FieldElement>,
    pub hashes: Vec<FieldElement>,
    pub path: Vec<FieldElement>,
    pub root: FieldElement,
    pub salt: FieldElement,
    pub pubkey: Option<FieldElement>,
}

fn append_all(out: &mut Vec<FieldElement>, xs: &Vec<FieldElement>)
    ensures
        final(out)@ == old(out)@ + xs@,
{
    let mut j: usize = 0;
    while j < xs.len()
        invariant
            j <= xs@.len(),
            out@ == old(out)@ + xs@.take(j as int),
        decreases xs@.len() - j,
    {
        out.push(xs[j]);
        j += 1;
        assert(xs@.take(j as int) == xs@.take(j - 1).push(xs@[j - 1]));
    }
    assert(xs@.take(xs@.len() as int) == xs@);
}

impl ProofRequest {
    /// The inputs a witness is built from.
    pub fn witness_inputs(&self) -> (r: WitnessInputs)
        ensures
            r.chunks@ == flatten_chunks(self@.leaves.map_values(|l: LeafModel| l.chunk)),
            r.siblings@ == flatten_chunks(self@.leaves.map_values(|l: LeafModel| l.siblings)),
            r.hashes@ == self@.leaves.map_values(|l: LeafModel| l.leaf_hash),
            r.path@.len() == self@.leaves.len(),
            forall|i: int|
                0 <= i < r.path@.len() ==> (#[trigger] r.path@[i]).value()
                    == self@.leaves[i].path_index,
            r.root == self.root,
            r.salt == self.salt,
            r.pubkey == self.pubkey,
    {
        let ghost leaves = self@.leaves;
        let mut chunks: Vec<FieldElement> = Vec::new();
        let mut siblings: Vec<FieldElement> = Vec::new();
        let mut hashes: Vec<FieldElement> = Vec::new();
        let mut path: Vec<FieldElement> = Vec::new();
        let mut i: usize = 0;
        while i < self.leaves.len()
            invariant
                leaves == self@.leaves,
                i <= leaves.len(),
                chunks@ == flatten_chunks(leaves.take(i as int).map_values(|l: LeafModel| l.chunk)),
                siblings@ == flatten_chunks(
                    leaves.take(i as int).map_values(|l: LeafModel| l.siblings),
                ),
                hashes@ == leaves.take(i as int).map_values(|l: LeafModel| l.leaf_hash),
                path@.len() == i,
                forall|k: int| 0 <= k < i ==> (#[trigger] path@[k]).value() == leaves[k].path_index,
            decreases leaves.len() - i,
        {
            let leaf = &self.leaves[i];
            append_all(&mut chunks, &leaf.chunk);
            append_all(&mut siblings, &leaf.siblings);
            hashes.push(leaf.leaf_hash);
            path.push(FieldElement::from_u64(leaf.path_index as u64));
            proof {
                let next = leaves.take(i + 1);
                assert(next.drop_last() == leaves.take(i as int));
                assert(next.map_values(|l: LeafModel| l.chunk).drop_last() =~= leaves.take(
                    i as int,
                ).map_values(|l: LeafModel| l.chunk));
                assert(next.map_values(|l: LeafModel| l.siblings).drop_last() =~= leaves.take(
                    i as int,
                ).map_values(|l: LeafModel| l.siblings));
                assert(next.map_values(|l: LeafModel| l.leaf_hash) =~= leaves.take(
                    i as int,
                ).map_values(|l: LeafModel| l.leaf_hash).push(leaf.leaf_hash));
            }
            i += 1;
        }
        assert(leaves.take(leaves.len() as int) == leaves);
        WitnessInputs { chunks, siblings, hashes, path, root: self.root, salt: self.salt, pubkey: self.pubkey }
    }
}

/// A copy of `v[start..end]`.
pub fn copy_range(v: &[FieldElement], start: usize, end: usize) -> (r: Vec<FieldElement>)
    requires
        start <= end <= v@.len(),
    ensures
        r@ == v@.subrange(start as int, end as int),
{
    let mut out: Vec<FieldElement> = Vec::new();
    let mut i: usize = start;
    while i < end
        invariant
            start <= i <= end <= v@.len(),
            out@ == v@.subrange(start as int, i as int),
        decreases end - i,
    {
        out.push(v[i]);
        i += 1;
    }
    out
}

proof fn lemma_pow2_grows(a: nat, b: nat)
    requires
        a <= b,
    ensures
        pow2(a) <= pow2(b),
        pow2(a) >= 1,
    decreases b,
{
    if a < b {
        lemma_pow2_grows(a, (b - 1) as nat);
    } else if a > 0 {
        lemma_pow2_grows((a - 1) as nat, (a - 1) as nat);
    }
}

/// Whether `n` is `2` to the power `d`.
fn is_pow2_of(n: usize, d: usize) -> (r: bool)
    ensures
        r == (pow2(d as nat) == n),
{
    let mut p: usize = 1;
    let mut k: usize = 0;
    while k < d
        invariant
            k <= d,
            p == pow2(k as nat),
            p <= n || k == 0,
        decreases d - k,
    {
        if p > n / 2 {
            proof {
                lemma_pow2_grows((k + 1) as nat, d as nat);
            }
            return false;
        }
        p = p * 2;
        k += 1;
    }
    p == n
}

/// Whether the parts meet the structural invariants of a request.
fn check_parts(
    chunks: &Vec<Vec<FieldElement>>,
    siblings: &Vec<FieldElement>,
    hashes: &Vec<FieldElement>,
    path: &Vec<i128>,
    root: FieldElement,
    salt: FieldElement,
    pubkey: Option<FieldElement>,
) -> (r: bool)
    ensures
        r == parts_valid(parts_of(chunks@, siblings@, hashes@, path@, root, salt, pubkey)),
{
    let ghost p = parts_of(chunks@, siblings@, hashes@, path@, root, salt, pubkey);
    let n = hashes.len();
    if n == 0 || chunks.len() != n || path.len() != n || siblings.len() % n != 0 {
        return false;
    }
    if !is_pow2_of(n, siblings.len() / n) {
        return false;
    }
    let mut seen: Vec<bool> = Vec::new();
    let mut j: usize = 0;
    while j < n
        invariant
            j <= n,
            seen@.len() == j,
            forall|x: int| 0 <= x < j ==> !seen@[x],
        decreases n - j,
    {
        seen.push(false);
        j += 1;
    }
    let mut i: usize = 0;
    while i < n
        invariant
            n == hashes@.len(),
            n == chunks@.len(),
            n == path@.len(),
            p == parts_of(chunks@, siblings@, hashes@, path@, root, salt, pubkey),
            i <= n,
            seen@.len() == n,
            forall|k: int| 0 <= k < i ==> (#[trigger] p.chunks[k]).len() == CHUNK_LEN,
            forall|k: int| 0 <= k < i ==> 0 <= #[trigger] p.path[k] < n,
            forall|k1: int, k2: int|
                0 <= k1 < i && 0 <= k2 < i && k1 != k2 ==> #[trigger] p.path[k1]
                    != #[trigger] p.path[k2],
            forall|x: int|
                0 <= x < n ==> (#[trigger] seen@[x] <==> exists|k: int|
                    0 <= k < i && #[trigger] p.path[k] == x),
        decreases n - i,
    {
        assert(p.chunks[i as int] == chunks@[i as int]@);
        assert(p.path[i as int] == path@[i as int] as int);
        if chunks[i].len() != CHUNK_LEN {
            return false;
        }
        let x = path[i];
        if x < 0 || x >= n as i128 {
            return false;
        }
        let xu = x as usize;
        if seen[xu] {
            proof {
                let k = choose|k: int| 0 <= k < i && #[trigger] p.path[k] == xu as int;
                assert(p.path[k] == p.path[i as int]);
            }
            return false;
        }
        seen.set(xu, true);
        i += 1;
    }
    true
}

/// Builds the canonical request from decoded parts, or reports
/// `InvalidArgument` when they break its structural invariants.
pub fn assemble(
    chunks: Vec<Vec<FieldElement>>,
    siblings: Vec<FieldElement>,
    hashes: Vec<FieldElement>,
    path: Vec<i128>,
    root: FieldElement,
    salt: FieldElement,
    pubkey: Option<FieldElement>,
) -> (r: Result<ProofRequest, EngineError>)
    ensures
        r matches Ok(req) ==> assembled(
            parts_of(chunks@, siblings@, hashes@, path@, root, salt, pubkey),
        ) == Ok::<RequestModel, EngineError>(req@),
        r matches Err(e) ==> assembled(
            parts_of(chunks@, siblings@, hashes@, path@, root, salt, pubkey),
        ) == Err::<RequestModel, EngineError>(e),
{
    let ghost p = parts_of(chunks@, siblings@, hashes@, path@, root, salt, pubkey);
    if !check_parts(&chunks, &siblings, &hashes, &path, root, salt, pubkey) {
        return Err(EngineError::InvalidArgument);
    }
    let n = hashes.len();
    let ns = siblings.len();
    let d = ns / n;
    proof {
        assert(d * n == siblings@.len()) by (nonlinear_arith)
            requires
                d as int == siblings@.len() as int / n as int,
                siblings@.len() as int % n as int == 0,
                n > 0,
        ;
    }
    let mut leaves: Vec<LeafProof> = Vec::new();
    let mut i: usize = 0;
    while i < n
        invariant
            n == hashes@.len(),
            n > 0,
            d == depth_of(p),
            d * n == siblings@.len(),
            ns == siblings@.len(),
            parts_valid(p),
            p == parts_of(chunks@, siblings@, hashes@, path@, root, salt, pubkey),
            i <= n,
            leaves@.len() == i,
            forall|k: int| 0 <= k < i ==> (#[trigger] leaves@[k])@ == leaf_of(p, k),
        decreases n - i,
    {
        proof {
            assert(i * d + d <= d * n) by (nonlinear_arith)
                requires
                    i < n,
            ;

        }
        let start = i * d;
        let sib = copy_range(siblings.as_slice(), start, start + d);
        let chunk = copy_range(chunks[i].as_slice(), 0, chunks[i].len());
        assert(0 <= p.path[i as int] < n);
        assert(p.chunks[i as int] == chunks@[i as int]@);
        assert(chunk@ == chunks@[i as int]@);
        let leaf = LeafProof {
            chunk,
            leaf_hash: hashes[i],
            path_index: path[i] as usize,
            siblings: sib,
        };
        leaves.push(leaf);
        i += 1;
    }
    let req = ProofRequest { leaves, root, salt, pubkey };
    assert(req@.leaves =~= request_of(p).leaves);
    Ok(req)
}

} // verus!
