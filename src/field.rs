use ruint::aliases::U256;
use vstd::prelude::*;
use vstd::slice::slice_subrange;

use crate::error::EngineError;

verus! {

/// Width in bytes of one encoded field element.
pub const ELEMENT_BYTES: usize = 32;

/// The number read from `b` as a little-endian byte string.
pub open spec fn le_value(b: Seq<u8>) -> nat
    decreases b.len(),
{
    if b.len() == 0 {
        0
    } else {
        b[0] as nat + 256 * le_value(b.drop_first())
    }
}

/// The number held by 64-bit limbs, least significant first.
pub open spec fn limbs_value(l: Seq<u64>) -> nat
    decreases l.len(),
{
    if l.len() == 0 {
        0
    } else {
        l[0] as nat + 0x1_0000_0000_0000_0000 * limbs_value(l.drop_first())
    }
}

/// The `n` low bytes of `v`, least significant first.
pub open spec fn le_bytes(v: nat, n: nat) -> Seq<u8>
    decreases n,
{
    if n == 0 {
        Seq::empty()
    } else {
        seq![(v % 256) as u8] + le_bytes(v / 256, (n - 1) as nat)
    }
}

/// `256` to the power `n`.
pub open spec fn byte_bound(n: nat) -> nat
    decreases n,
{
    if n == 0 {
        1
    } else {
        256 * byte_bound((n - 1) as nat)
    }
}

/// `2^64` to the power `n`.
pub open spec fn limb_bound(n: nat) -> nat
    decreases n,
{
    if n == 0 {
        1
    } else {
        0x1_0000_0000_0000_0000 * limb_bound((n - 1) as nat)
    }
}

/// The concatenated 32-byte encodings of `xs`, in order.
pub open spec fn encode_seq(xs: Seq<FieldElement>) -> Seq<u8>
    decreases xs.len(),
{
    if xs.len() == 0 {
        Seq::empty()
    } else {
        encode_seq(xs.drop_last()) + le_bytes(xs.last().value(), 32)
    }
}

/// The `i`-th 32-byte window of `b`.
pub open spec fn window(b: Seq<u8>, i: int) -> Seq<u8> {
    b.subrange(32 * i, 32 * i + 32)
}

/// The element whose value the little-endian bytes `w` spell.
pub open spec fn element_of_bytes(w: Seq<u8>) -> FieldElement {
    choose|x: FieldElement| x.value() == le_value(w)
}

/// The elements that a flat concatenation of 32-byte windows spells, in order.
pub open spec fn elements_of(b: Seq<u8>) -> Seq<FieldElement> {
    Seq::new(b.len() / 32, |i: int| element_of_bytes(window(b, i)))
}

/// A 256-bit unsigned integer, the circuit's native value, held as four
/// 64-bit limbs, least significant first.
#[derive(Clone, Copy, Debug, PartialEq, Eq)]
pub struct FieldElement {
    pub limbs: [u64; 4],
}

impl FieldElement {
    /// The integer this element stands for.
    pub open spec fn value(self) -> nat {
        limbs_value(self.limbs@)
    }

    /// The element whose value is `v`.
    pub fn from_u64(v: u64) -> (r: FieldElement)
        ensures
            r.value() == v as nat,
    {
        let r = FieldElement { limbs: [v, 0, 0, 0] };
        proof {
            reveal_with_fuel(limbs_value, 5);
        }
        r
    }
}

/// Relies on ruint's `Uint::try_from_le_slice`: a slice of at most 32 bytes is
/// read as a little-endian 256-bit integer and a longer one is refused; and on
/// `Uint::into_limbs`, which hands out its limbs, least significant first.
#[verifier::external_body]
fn u256_limbs_from_le(bytes: &[u8]) -> (r: Option<[u64; 4]>)
    ensures
        r is Some <==> bytes@.len() <= 32,
        r matches Some(l) ==> limbs_value(l@) == le_value(bytes@),
{
    match U256::try_from_le_slice(bytes) {
        Some(u) => Some(u.into_limbs()),
        None => None,
    }
}

/// Relies on ruint's `Uint::from_limbs` (any four limbs make a 256-bit value)
/// and `Uint::to_le_bytes`: the 32 little-endian bytes of that value.
#[verifier::external_body]
fn u256_le_bytes(limbs: [u64; 4]) -> (r: Vec<u8>)
    ensures
        r@ == le_bytes(limbs_value(limbs@), 32),
{
    U256::from_limbs(limbs).to_le_bytes::<32>().to_vec()
}

/// Reads one field element from exactly 32 little-endian bytes.
pub fn decode(bytes: &[u8]) -> (r: Result<FieldElement, EngineError>)
    ensures
        r is Ok <==> bytes@.len() == 32,
        r matches Ok(x) ==> x.value() == le_value(bytes@) && x == element_of_bytes(bytes@),
        r matches Err(e) ==> e == EngineError::InvalidLength,
{
    if bytes.len() != ELEMENT_BYTES {
        return Err(EngineError::InvalidLength);
    }
    match u256_limbs_from_le(bytes) {
        Some(limbs) => {
            let x = FieldElement { limbs };
            proof {
                lemma_element_of_bytes(x, bytes@);
            }
            Ok(x)
        },
        None => Err(EngineError::InvalidLength),
    }
}

/// The 32 little-endian bytes of `x`.
pub fn encode(x: &FieldElement) -> (r: Vec<u8>)
    ensures
        r@ == le_bytes(x.value(), 32),
        r@.len() == 32,
{
    let r = u256_le_bytes(x.limbs);
    proof {
        lemma_le_bytes_len(x.value(), 32);
    }
    r
}

/// Reads a flat concatenation of 32-byte little-endian field elements.
pub fn decode_array(bytes: &[u8]) -> (r: Result<Vec<FieldElement>, EngineError>)
    ensures
        r is Ok <==> bytes@.len() % 32 == 0,
        r matches Ok(v) ==> v@ == elements_of(bytes@),
        r matches Ok(v) ==> v@.len() == bytes@.len() / 32 && forall|i: int|
            0 <= i < v@.len() ==> #[trigger] v@[i].value() == le_value(window(bytes@, i)),
        r matches Err(e) ==> e == EngineError::InvalidLength,
{
    if bytes.len() % ELEMENT_BYTES != 0 {
        return Err(EngineError::InvalidLength);
    }
    let n = bytes.len() / ELEMENT_BYTES;
    assert(n * 32 == bytes@.len());
    let mut out: Vec<FieldElement> = Vec::new();
    let mut i: usize = 0;
    while i < n
        invariant
            n == bytes@.len() / 32,
            bytes@.len() % 32 == 0,
            n * 32 == bytes@.len(),
            bytes@.len() <= usize::MAX,
            i <= n,
            out@.len() == i,
            forall|k: int| 0 <= k < i ==> #[trigger] out@[k].value() == le_value(window(bytes@, k)),
            forall|k: int| 0 <= k < i ==> #[trigger] out@[k] == element_of_bytes(window(bytes@, k)),
        decreases n - i,
    {
        assert(i * 32 + 32 <= n * 32) by (nonlinear_arith)
            requires
                i < n,
        {
        }
        let start = i * ELEMENT_BYTES;
        let piece = slice_subrange(bytes, start, start + ELEMENT_BYTES);
        assert(piece@ == window(bytes@, i as int));
        match decode(piece) {
            Ok(x) => out.push(x),
            Err(e) => return Err(e),
        }
        i += 1;
    }
    assert(out@ =~= elements_of(bytes@));
    Ok(out)
}

/// The flat concatenation of the 32-byte encodings of `xs`.
pub fn encode_array(xs: &[FieldElement]) -> (r: Vec<u8>)
    ensures
        r@ == encode_seq(xs@),
        r@.len() == 32 * xs@.len(),
{
    let mut out: Vec<u8> = Vec::new();
    let mut i: usize = 0;
    while i < xs.len()
        invariant
            i <= xs@.len(),
            out@ == encode_seq(xs@.take(i as int)),
            out@.len() == 32 * i,
        decreases xs@.len() - i,
    {
        let bytes = encode(&xs[i]);
        let mut j: usize = 0;
        let ghost before = out@;
        while j < bytes.len()
            invariant
                bytes@.len() == 32,
                j <= 32,
                out@ == before + bytes@.take(j as int),
            decreases 32 - j,
        {
            out.push(bytes[j]);
            j += 1;
            assert(bytes@.take(j as int) == bytes@.take(j - 1) .push(bytes@[j - 1]));
        }
        assert(bytes@.take(32) == bytes@);
        assert(xs@.take(i + 1).drop_last() == xs@.take(i as int));
        i += 1;
    }
    assert(xs@.take(xs@.len() as int) == xs@);
    out
}

/// `le_bytes(v, n)` has `n` bytes.
pub proof fn lemma_le_bytes_len(v: nat, n: nat)
    ensures
        le_bytes(v, n).len() == n,
    decreases n,
{
    if n > 0 {
        lemma_le_bytes_len(v / 256, (n - 1) as nat);
    }
}

/// Reading back `n` little-endian bytes of a value below `256^n` gives the value.
pub proof fn lemma_le_value_of_le_bytes(v: nat, n: nat)
    requires
        v < byte_bound(n),
    ensures
        le_value(le_bytes(v, n)) == v,
    decreases n,
{
    if n > 0 {
        let rest = le_bytes(v / 256, (n - 1) as nat);
        assert(v / 256 < byte_bound((n - 1) as nat)) by (nonlinear_arith)
            requires
                v < 256 * byte_bound((n - 1) as nat),
        {
        }
        lemma_le_value_of_le_bytes(v / 256, (n - 1) as nat);
        assert(le_bytes(v, n).drop_first() == rest);
        assert(v == v % 256 + 256 * (v / 256)) by (nonlinear_arith);
    }
}

proof fn lemma_byte_bound_step(n: nat)
    ensures
        byte_bound(n + 8) == 0x1_0000_0000_0000_0000 * byte_bound(n),
{
    reveal_with_fuel(byte_bound, 9);
}

proof fn lemma_bounds_agree(k: nat)
    ensures
        byte_bound(8 * k) == limb_bound(k),
    decreases k,
{
    if k > 0 {
        lemma_bounds_agree((k - 1) as nat);
        lemma_byte_bound_step(8 * (k - 1) as nat);
        assert(8 * (k - 1) as nat + 8 == 8 * k);
    }
}

proof fn lemma_limbs_value_bound(l: Seq<u64>)
    ensures
        limbs_value(l) < limb_bound(l.len()),
    decreases l.len(),
{
    if l.len() > 0 {
        let rest = l.drop_first();
        lemma_limbs_value_bound(rest);
        let a = l[0] as nat;
        let r = limbs_value(rest);
        let b = limb_bound(rest.len());
        assert(a + 0x1_0000_0000_0000_0000 * r < 0x1_0000_0000_0000_0000 * b) by (nonlinear_arith)
            requires
                a < 0x1_0000_0000_0000_0000,
                r < b,
        {
        }
    }
}

proof fn lemma_digits_unique(a: nat, x: nat, b: nat, y: nat, base: nat)
    requires
        a < base,
        b < base,
        a + base * x == b + base * y,
    ensures
        a == b,
        x == y,
{
    if x > y {
        assert(base * x >= base * y + base) by (nonlinear_arith)
            requires
                x > y,
        {
        }
    } else if y > x {
        assert(base * y >= base * x + base) by (nonlinear_arith)
            requires
                y > x,
        {
        }
    }
}

proof fn lemma_limbs_value_injective(p: Seq<u64>, q: Seq<u64>)
    requires
        p.len() == q.len(),
        limbs_value(p) == limbs_value(q),
    ensures
        p == q,
    decreases p.len(),
{
    if p.len() > 0 {
        lemma_digits_unique(
            p[0] as nat,
            limbs_value(p.drop_first()),
            q[0] as nat,
            limbs_value(q.drop_first()),
            0x1_0000_0000_0000_0000,
        );
        lemma_limbs_value_injective(p.drop_first(), q.drop_first());
        assert(p == seq![p[0]] + p.drop_first());
        assert(q == seq![q[0]] + q.drop_first());
    }
}

/// Two field elements with the same value are the same element.
pub proof fn lemma_value_injective(x: FieldElement, y: FieldElement)
    requires
        x.value() == y.value(),
    ensures
        x == y,
{
    lemma_limbs_value_injective(x.limbs@, y.limbs@);
    assert(forall|i: int| 0 <= i < 4 ==> x.limbs@[i] == y.limbs@[i]);
    assert(x.limbs =~= y.limbs);
}

/// An element whose value the bytes spell is the one `element_of_bytes` names.
pub proof fn lemma_element_of_bytes(x: FieldElement, w: Seq<u8>)
    requires
        x.value() == le_value(w),
    ensures
        element_of_bytes(w) == x,
{
    let y = element_of_bytes(w);
    assert(y.value() == le_value(w));
    lemma_value_injective(x, y);
}

/// Every field element is below `256^32`, so its 32 bytes carry it whole.
pub proof fn lemma_value_fits(x: FieldElement)
    ensures
        x.value() < byte_bound(32),
        le_value(le_bytes(x.value(), 32)) == x.value(),
{
    lemma_limbs_value_bound(x.limbs@);
    lemma_bounds_agree(4);
    lemma_le_value_of_le_bytes(x.value(), 32);
}

/// Decoding the encoding of an element gives the element back.
pub proof fn law_round_trip(x: FieldElement, bytes: Seq<u8>, y: FieldElement)
    requires
        bytes == le_bytes(x.value(), 32),
        y.value() == le_value(bytes),
    ensures
        y == x,
{
    lemma_value_fits(x);
    lemma_value_injective(x, y);
}

/// The `i`-th 32-byte window of an array encoding is the encoding of its `i`-th element.
pub proof fn lemma_encode_seq_window(xs: Seq<FieldElement>, i: int)
    requires
        0 <= i < xs.len(),
    ensures
        encode_seq(xs).len() == 32 * xs.len(),
        window(encode_seq(xs), i) == le_bytes(xs[i].value(), 32),
    decreases xs.len(),
{
    lemma_encode_seq_len(xs);
    let init = xs.drop_last();
    lemma_encode_seq_len(init);
    lemma_le_bytes_len(xs.last().value(), 32);
    if i < xs.len() - 1 {
        lemma_encode_seq_window(init, i);
        assert(window(encode_seq(xs), i) == window(encode_seq(init), i));
    } else {
        assert(window(encode_seq(xs), i) == le_bytes(xs.last().value(), 32));
    }
}

/// An array encoding has 32 bytes per element.
pub proof fn lemma_encode_seq_len(xs: Seq<FieldElement>)
    ensures
        encode_seq(xs).len() == 32 * xs.len(),
    decreases xs.len(),
{
    if xs.len() > 0 {
        lemma_encode_seq_len(xs.drop_last());
        lemma_le_bytes_len(xs.last().value(), 32);
    }
}

/// Decoding the encoding of an array of elements gives the array back.
pub proof fn law_array_round_trip(xs: Seq<FieldElement>, ys: Seq<FieldElement>)
    requires
        ys.len() == encode_seq(xs).len() / 32,
        forall|i: int| 0 <= i < ys.len() ==> #[trigger] ys[i].value() == le_value(window(encode_seq(xs), i)),
    ensures
        ys == xs,
{
    lemma_encode_seq_len(xs);
    assert forall|i: int| 0 <= i < ys.len() implies ys[i] == xs[i] by {
        lemma_encode_seq_window(xs, i);
        law_round_trip(xs[i], window(encode_seq(xs), i), ys[i]);
    }
    assert(ys =~= xs);
}

} // verus!
