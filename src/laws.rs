use vstd::prelude::*;

use crate::document::{fetch, spec_tagged_element, structured_parts, structured_request, Doc};
use crate::error::EngineError;
use crate::field::{
    element_of_bytes, elements_of, encode_seq, le_bytes, lemma_element_of_bytes,
    lemma_encode_seq_len, lemma_encode_seq_window, lemma_le_bytes_len, lemma_value_fits, window,
    FieldElement,
};
use crate::positional::{positional_parts, positional_request, split_chunks};
use crate::request::{flatten_chunks, parts_valid, request_of, Parts, RequestModel, CHUNK_LEN};

verus! {

proof fn lemma_flatten_window(cs: Seq<Seq<FieldElement>>, i: int)
    requires
        forall|k: int| 0 <= k < cs.len() ==> (#[trigger] cs[k]).len() == CHUNK_LEN,
    ensures
        flatten_chunks(cs).len() == 256 * cs.len(),
        0 <= i < cs.len() ==> flatten_chunks(cs).subrange(256 * i, 256 * i + 256) == cs[i],
    decreases cs.len(),
{
    if cs.len() > 0 {
        let init = cs.drop_last();
        assert(forall|k: int| 0 <= k < init.len() ==> #[trigger] init[k] == cs[k]);
        lemma_flatten_window(init, i);
        assert(cs.last() == cs[cs.len() - 1]);
        if 0 <= i < cs.len() - 1 {
            assert(flatten_chunks(cs).subrange(256 * i, 256 * i + 256) == flatten_chunks(
                init,
            ).subrange(256 * i, 256 * i + 256));
        }
    }
}

proof fn lemma_elements_of_encode_seq(xs: Seq<FieldElement>)
    ensures
        elements_of(encode_seq(xs)) == xs,
{
    lemma_encode_seq_len(xs);
    let ys = elements_of(encode_seq(xs));
    assert forall|i: int| 0 <= i < xs.len() implies ys[i] == xs[i] by {
        lemma_encode_seq_window(xs, i);
        lemma_value_fits(xs[i]);
        lemma_element_of_bytes(xs[i], window(encode_seq(xs), i));
    }
    assert(ys =~= xs);
}

proof fn lemma_element_of_encoding(x: FieldElement)
    ensures
        element_of_bytes(le_bytes(x.value(), 32)) == x,
        le_bytes(x.value(), 32).len() == 32,
{
    lemma_value_fits(x);
    lemma_le_bytes_len(x.value(), 32);
    lemma_element_of_bytes(x, le_bytes(x.value(), 32));
}

/// The two wire formats agree: positional buffers that carry the fields of a
/// valid request, and a structured document that carries the same fields,
/// decode to one and the same request.
pub proof fn law_format_equivalence(p: Parts, doc: Doc, path: Seq<i32>)
    requires
        parts_valid(p),
        p.pubkey is None,
        structured_parts(doc) == Ok::<Parts, EngineError>(p),
        path.map_values(|x: i32| x as int) == p.path,
    ensures
        positional_request(
            encode_seq(flatten_chunks(p.chunks)),
            encode_seq(p.siblings),
            encode_seq(p.hashes),
            path,
            None,
            le_bytes(p.root.value(), 32),
            le_bytes(p.salt.value(), 32),
        ) == structured_request(doc),
        structured_request(doc) == Ok::<RequestModel, EngineError>(request_of(p)),
{
    let flat = flatten_chunks(p.chunks);
    let n = p.hashes.len();
    lemma_flatten_window(p.chunks, 0);
    lemma_encode_seq_len(flat);
    lemma_encode_seq_len(p.siblings);
    lemma_encode_seq_len(p.hashes);
    lemma_elements_of_encode_seq(flat);
    lemma_elements_of_encode_seq(p.siblings);
    lemma_elements_of_encode_seq(p.hashes);
    lemma_element_of_encoding(p.root);
    lemma_element_of_encoding(p.salt);
    assert forall|i: int| 0 <= i < n implies #[trigger] split_chunks(flat, n)[i] == p.chunks[i] by {
        lemma_flatten_window(p.chunks, i);
    }
    assert(split_chunks(flat, n) =~= p.chunks);
    let q = positional_parts(
        encode_seq(flat),
        encode_seq(p.siblings),
        encode_seq(p.hashes),
        path,
        None,
        le_bytes(p.root.value(), 32),
        le_bytes(p.salt.value(), 32),
    );
    assert(q is Ok);
    assert(q->Ok_0 == p);
}

/// A chunk buffer whose length is not a multiple of 32 bytes, or a sibling
/// count that the leaf count does not divide, is an `InvalidArgument`.
pub proof fn law_length_validation(
    chunks: Seq<u8>,
    siblings: Seq<u8>,
    hashes: Seq<u8>,
    path: Seq<i32>,
    pubkey: Option<Seq<u8>>,
    root: Seq<u8>,
    salt: Seq<u8>,
)
    requires
        chunks.len() % 32 != 0 || hashes.len() / 32 == 0 || (siblings.len() / 32) % (hashes.len()
            / 32) != 0,
    ensures
        positional_request(chunks, siblings, hashes, path, pubkey, root, salt) == Err::<
            RequestModel,
            EngineError,
        >(EngineError::InvalidArgument),
{
    let q = positional_parts(chunks, siblings, hashes, path, pubkey, root, salt);
    if q is Ok {
        let p = q->Ok_0;
        assert(p.siblings.len() == siblings.len() / 32);
        assert(p.hashes.len() == hashes.len() / 32);
        assert(!parts_valid(p));
    }
}

/// A tagged value whose extension type is not 50, or whose payload is not
/// 32 bytes long, is a `SchemaMismatch`; a document whose root is such a
/// value does not decode.
pub proof fn law_tag_validation(v: Doc, doc: Doc)
    requires
        v matches Doc::Ext(tag, payload) && (tag != 50 || payload@.len() != 32),
    ensures
        spec_tagged_element(v) == Err::<FieldElement, EngineError>(EngineError::SchemaMismatch),
        doc matches Doc::Table(entries) && fetch(entries@, "root"@) == Ok::<Doc, EngineError>(v)
            ==> structured_request(doc) is Err,
{
}

} // verus!
