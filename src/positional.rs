use vstd::prelude::*;

use crate::error::EngineError;
use crate::field::{decode, decode_array, element_of_bytes, elements_of, FieldElement};
use crate::request::{assemble, assembled, parts_of, Parts, ProofRequest, RequestModel, CHUNK_LEN};

verus! {

/// The flat chunk elements cut into `n` chunks of 256 elements each.
pub open spec fn split_chunks(flat: Seq<FieldElement>, n: nat) -> Seq<Seq<FieldElement>> {
    Seq::new(n, |i: int| flat.subrange(256 * i, 256 * i + 256))
}

/// The parts that the positional buffers carry, or `InvalidArgument` when a
/// buffer's length does not fit its element width or the chunk data does
/// not hold 256 elements per leaf hash.
pub open spec fn positional_parts(
    chunks: Seq<u8>,
    siblings: Seq<u8>,
    hashes: Seq<u8>,
    path: Seq<i32>,
    pubkey: Option<Seq<u8>>,
    root: Seq<u8>,
    salt: Seq<u8>,
) -> Result<Parts, EngineError> {
    let n = hashes.len() / 32;
    if chunks.len() % 32 != 0 || siblings.len() % 32 != 0 || hashes.len() % 32 != 0
        || root.len() != 32 || salt.len() != 32 || (pubkey matches Some(k) && k.len() != 32)
        || elements_of(chunks).len() != 256 * n {
        Err(EngineError::InvalidArgument)
    } else {
        Ok(
            Parts {
                chunks: split_chunks(elements_of(chunks), n),
                siblings: elements_of(siblings),
                hashes: elements_of(hashes),
                path: path.map_values(|x: i32| x as int),
                root: element_of_bytes(root),
                salt: element_of_bytes(salt),
                pubkey: match pubkey {
                    Some(k) => Some(element_of_bytes(k)),
                    None => None,
                },
            },
        )
    }
}

/// What the positional format decodes to.
pub open spec fn positional_request(
    chunks: Seq<u8>,
    siblings: Seq<u8>,
    hashes: Seq<u8>,
    path: Seq<i32>,
    pubkey: Option<Seq<u8>>,
    root: Seq<u8>,
    salt: Seq<u8>,
) -> Result<RequestModel, EngineError> {
    match positional_parts(chunks, siblings, hashes, path, pubkey, root, salt) {
        Ok(p) => assembled(p),
        Err(e) => Err(e),
    }
}

fn decode_arg(bytes: &[u8]) -> (r: Result<FieldElement, EngineError>)
    ensures
        r is Ok <==> bytes@.len() == 32,
        r matches Ok(x) ==> x == element_of_bytes(bytes@),
        r matches Err(e) ==> e == EngineError::InvalidArgument,
{
    match decode(bytes) {
        Ok(x) => Ok(x),
        Err(_) => Err(EngineError::InvalidArgument),
    }
}

fn decode_array_arg(bytes: &[u8]) -> (r: Result<Vec<FieldElement>, EngineError>)
    ensures
        r is Ok <==> bytes@.len() % 32 == 0,
        r matches Ok(v) ==> v@ == elements_of(bytes@),
        r matches Err(e) ==> e == EngineError::InvalidArgument,
{
    match decode_array(bytes) {
        Ok(v) => Ok(v),
        Err(_) => Err(EngineError::InvalidArgument),
    }
}

/// Decodes the positional format: chunk data, sibling hashes and leaf hashes
/// as flat 32-byte little-endian elements, one path index per leaf, and an
/// optional public key, the root and the salt as single elements.
pub fn decode_positional(
    chunks: &[u8],
    siblings: &[u8],
    hashes: &[u8],
    path: &[i32],
    pubkey: Option<&[u8]>,
    root: &[u8],
    salt: &[u8],
) -> (r: Result<ProofRequest, EngineError>)
    ensures
        r matches Ok(req) ==> positional_request(
            chunks@,
            siblings@,
            hashes@,
            path@,
            match pubkey {
                Some(k) => Some(k@),
                None => None,
            },
            root@,
            salt@,
        ) == Ok::<RequestModel, EngineError>(req@),
        r matches Err(e) ==> positional_request(
            chunks@,
            siblings@,
            hashes@,
            path@,
            match pubkey {
                Some(k) => Some(k@),
                None => None,
            },
            root@,
            salt@,
        ) == Err::<RequestModel, EngineError>(e),
{
    let ghost pk = match pubkey {
        Some(k) => Some(k@),
        None => None,
    };
    let ghost pp = positional_parts(chunks@, siblings@, hashes@, path@, pk, root@, salt@);
    let flat = decode_array_arg(chunks)?;
    let sibs = decode_array_arg(siblings)?;
    let leaf_hashes = decode_array_arg(hashes)?;
    let root_x = decode_arg(root)?;
    let salt_x = decode_arg(salt)?;
    let pubkey_x = match pubkey {
        Some(k) => Some(decode_arg(k)?),
        None => None,
    };
    let n = leaf_hashes.len();
    if flat.len() / CHUNK_LEN != n || flat.len() % CHUNK_LEN != 0 {
        return Err(EngineError::InvalidArgument);
    }
    let nf = flat.len();
    let mut split: Vec<Vec<FieldElement>> = Vec::new();
    let mut i: usize = 0;
    while i < n
        invariant
            i <= n,
            flat@.len() == 256 * n,
            nf == flat@.len(),
            split@.len() == i,
            forall|k: int| 0 <= k < i ==> (#[trigger] split@[k])@ == flat@.subrange(256 * k, 256 * k + 256),
        decreases n - i,
    {
        let start = i * CHUNK_LEN;
        let piece = crate::request::copy_range(flat.as_slice(), start, start + CHUNK_LEN);
        split.push(piece);
        i += 1;
    }
    let mut path_wide: Vec<i128> = Vec::new();
    let mut j: usize = 0;
    while j < path.len()
        invariant
            j <= path@.len(),
            path_wide@.len() == j,
            forall|k: int| 0 <= k < j ==> #[trigger] path_wide@[k] == path@[k] as i128,
        decreases path@.len() - j,
    {
        path_wide.push(path[j] as i128);
        j += 1;
    }
    let ghost p = parts_of(split@, sibs@, leaf_hashes@, path_wide@, root_x, salt_x, pubkey_x);
    proof {
        let q = pp->Ok_0;
        assert(p.chunks =~= q.chunks);
        assert(p.path =~= q.path);
        assert(p == q);
    }
    assemble(split, sibs, leaf_hashes, path_wide, root_x, salt_x, pubkey_x)
}

} // verus!
