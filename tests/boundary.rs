use rand::distributions::Alphanumeric;
use rand::rngs::StdRng;
use rand::{Rng, SeedableRng};
use rmpv::decode::read_value;
use rmpv::encode::write_value;
use rmpv::Value;
use ruint::aliases::U256;

use storage_proofs_boundary::{
    assemble, decode, decode_array, decode_positional, decode_structured, encode, encode_array,
    find_field, int_array, tagged_chunks, tagged_element, tagged_elements, Buffer, Doc,
    EngineError, FieldElement, ProofCtx, ProofRequest, ProverHandle, Registry, EXT_ID_U256_LE,
};

fn fe(v: u64) -> FieldElement {
    FieldElement::from_u64(v)
}

fn to_doc(v: &Value) -> Doc {
    match v {
        Value::Nil => Doc::Nil,
        Value::Boolean(b) => Doc::Bool(*b),
        Value::Integer(i) => match i.as_u64() {
            Some(u) => Doc::PosInt(u),
            None => Doc::NegInt(i.as_i64().unwrap()),
        },
        Value::F32(_) | Value::F64(_) => Doc::Float,
        Value::String(s) => match s.as_str() {
            Some(t) => Doc::Str(t.to_string()),
            None => Doc::Bin(s.as_bytes().to_vec()),
        },
        Value::Binary(b) => Doc::Bin(b.clone()),
        Value::Array(items) => Doc::Array(items.iter().map(to_doc).collect()),
        Value::Map(entries) => {
            Doc::Table(entries.iter().map(|(k, v)| (to_doc(k), to_doc(v))).collect())
        }
        Value::Ext(tag, data) => Doc::Ext(*tag, data.clone()),
    }
}

fn ext(x: &FieldElement) -> Doc {
    Doc::Ext(EXT_ID_U256_LE, encode(x))
}

fn ext_array(xs: &[FieldElement]) -> Doc {
    Doc::Array(xs.iter().map(ext).collect())
}

fn key(k: &str) -> Doc {
    Doc::Str(k.to_string())
}

/// Four chunks of 256 elements, and the hashes, siblings, path and root of a
/// depth-two tree over them (the hash values are stand-ins).
struct Scenario {
    chunks: Vec<Vec<FieldElement>>,
    hashes: Vec<FieldElement>,
    siblings: Vec<FieldElement>,
    path: Vec<i32>,
    root: FieldElement,
}

fn scenario() -> Scenario {
    let chunks: Vec<Vec<FieldElement>> = (0..4u64)
        .map(|c| (0..256u64).map(|i| fe(c * 1000 + i)).collect())
        .collect();
    let hashes: Vec<FieldElement> = (0..4u64).map(|i| fe(0xAA00 + i)).collect();
    let h_l = fe(0xBB01);
    let h_r = fe(0xBB02);
    let siblings = vec![
        hashes[1], h_r, hashes[0], h_r, hashes[3], h_l, hashes[2], h_l,
    ];
    Scenario { chunks, hashes, siblings, path: vec![0, 1, 2, 3], root: fe(0xCC00) }
}

fn positional(s: &Scenario) -> Result<ProofRequest, EngineError> {
    let flat: Vec<FieldElement> = s.chunks.iter().flatten().copied().collect();
    let root = encode(&s.root);
    decode_positional(
        &encode_array(&flat),
        &encode_array(&s.siblings),
        &encode_array(&s.hashes),
        &s.path,
        None,
        &root,
        &root,
    )
}

fn structured_doc(s: &Scenario) -> Doc {
    Doc::Table(vec![
        (key("chunks"), Doc::Array(s.chunks.iter().map(|c| ext_array(c)).collect())),
        (key("siblings"), ext_array(&s.siblings)),
        (key("hashes"), ext_array(&s.hashes)),
        (key("path"), Doc::Array(s.path.iter().map(|p| Doc::PosInt(*p as u64)).collect())),
        (key("root"), ext(&s.root)),
        (key("salt"), ext(&s.root)),
    ])
}

fn same_request(a: &ProofRequest, b: &ProofRequest) -> bool {
    a.root == b.root
        && a.salt == b.salt
        && a.pubkey == b.pubkey
        && a.leaves.len() == b.leaves.len()
        && a.leaves.iter().zip(b.leaves.iter()).all(|(x, y)| {
            x.chunk == y.chunk
                && x.leaf_hash == y.leaf_hash
                && x.path_index == y.path_index
                && x.siblings == y.siblings
        })
}

#[test]
fn test_mpack() {
    let mut buf = Vec::new();

    let data = (0..4)
        .map(|_| {
            let rng = StdRng::seed_from_u64(42);
            let preimages: Vec<U256> =
                rng.sample_iter(Alphanumeric).take(256).map(|c| U256::from(c)).collect();
            preimages
        })
        .collect::<Vec<Vec<U256>>>();

    let chunks = data
        .iter()
        .map(|c| {
            let x = c
                .iter()
                .map(|c| Value::Ext(EXT_ID_U256_LE, c.to_le_bytes_vec()))
                .collect::<Vec<Value>>();
            Value::Array(x)
        })
        .collect::<Vec<Value>>();
    let chunks = Value::Array(chunks);
    let data_value = Value::Map(vec![(Value::String("chunks".into()), chunks.clone())]);

    write_value(&mut buf, &data_value).unwrap();
    let mut rd: &[u8] = &buf[..];
    let args = to_doc(&read_value(&mut rd).unwrap());

    let entries = match &args {
        Doc::Table(entries) => entries,
        _ => panic!("unhandled type!"),
    };
    let field = find_field(entries, &"chunks".to_string()).unwrap();
    assert!(matches!(field, Doc::Array(_)));
    if let Doc::Array(items) = field {
        assert!(matches!(items[0], Doc::Array(_)));
        if let Doc::Array(first) = &items[0] {
            if let Doc::Ext(tag, _) = &first[0] {
                assert_eq!(*tag, 50);
            }
        }
    }

    let arg_chunks = tagged_chunks(field).unwrap();
    assert_eq!(arg_chunks.len(), 4);
    assert_eq!(arg_chunks[0].len(), 256);
    let first = U256::from_limbs(arg_chunks[0][0].limbs);
    assert_eq!(first, data[0][0]);
}

#[test]
fn element_encodes_little_endian() {
    let bytes = encode(&fe(0x0102));
    assert_eq!(bytes.len(), 32);
    assert_eq!(bytes[0], 2);
    assert_eq!(bytes[1], 1);
    assert!(bytes[2..].iter().all(|b| *b == 0));
}

#[test]
fn element_round_trip() {
    let x = FieldElement { limbs: [u64::MAX, 7, 0, 1 << 63] };
    let bytes = encode(&x);
    assert_eq!(decode(&bytes), Ok(x));
    assert_eq!(bytes[31], 0x80);
    assert_eq!(bytes[8], 7);
}

#[test]
fn element_wrong_length() {
    assert_eq!(decode(&[0u8; 31]), Err(EngineError::InvalidLength));
    assert_eq!(decode(&[0u8; 33]), Err(EngineError::InvalidLength));
    assert_eq!(decode(&[]), Err(EngineError::InvalidLength));
}

#[test]
fn array_round_trip() {
    let xs = vec![fe(1), fe(2), FieldElement { limbs: [3, 4, 5, 6] }];
    let bytes = encode_array(&xs);
    assert_eq!(bytes.len(), 96);
    assert_eq!(bytes[32], 2);
    assert_eq!(decode_array(&bytes), Ok(xs));
    assert_eq!(decode_array(&[]), Ok(vec![]));
}

#[test]
fn array_wrong_length() {
    assert_eq!(decode_array(&[0u8; 33]), Err(EngineError::InvalidLength));
}

#[test]
fn positional_scenario() {
    let s = scenario();
    let req = positional(&s).unwrap();
    assert_eq!(req.leaves.len(), 4);
    assert_eq!(req.root, s.root);
    assert_eq!(req.salt, s.root);
    assert_eq!(req.pubkey, None);
    for (i, leaf) in req.leaves.iter().enumerate() {
        assert_eq!(leaf.chunk, s.chunks[i]);
        assert_eq!(leaf.leaf_hash, s.hashes[i]);
        assert_eq!(leaf.path_index, i);
        assert_eq!(leaf.siblings, s.siblings[2 * i..2 * i + 2].to_vec());
    }
    assert_eq!(req.leaves[2].siblings, vec![fe(0xAA03), fe(0xBB01)]);
}

#[test]
fn positional_with_pubkey() {
    let s = scenario();
    let flat: Vec<FieldElement> = s.chunks.iter().flatten().copied().collect();
    let root = encode(&s.root);
    let pk = encode(&fe(9));
    let req = decode_positional(
        &encode_array(&flat),
        &encode_array(&s.siblings),
        &encode_array(&s.hashes),
        &s.path,
        Some(&pk),
        &root,
        &root,
    )
    .unwrap();
    assert_eq!(req.pubkey, Some(fe(9)));
    let short = [0u8; 31];
    let bad = decode_positional(
        &encode_array(&flat),
        &encode_array(&s.siblings),
        &encode_array(&s.hashes),
        &s.path,
        Some(&short),
        &root,
        &root,
    );
    assert!(matches!(bad, Err(EngineError::InvalidArgument)));
}

#[test]
fn chunk_buffer_not_multiple_of_width() {
    let s = scenario();
    let mut flat = encode_array(&s.chunks.concat());
    flat.push(0);
    let root = encode(&s.root);
    let r = decode_positional(
        &flat,
        &encode_array(&s.siblings),
        &encode_array(&s.hashes),
        &s.path,
        None,
        &root,
        &root,
    );
    assert!(matches!(r, Err(EngineError::InvalidArgument)));
}

#[test]
fn sibling_count_not_divisible_by_leaves() {
    let s = scenario();
    let root = encode(&s.root);
    let r = decode_positional(
        &encode_array(&s.chunks.concat()),
        &encode_array(&s.siblings[..7]),
        &encode_array(&s.hashes),
        &s.path,
        None,
        &root,
        &root,
    );
    assert!(matches!(r, Err(EngineError::InvalidArgument)));
}

#[test]
fn chunk_count_disagrees_with_hashes() {
    let s = scenario();
    let root = encode(&s.root);
    let r = decode_positional(
        &encode_array(&s.chunks[..3].concat()),
        &encode_array(&s.siblings),
        &encode_array(&s.hashes),
        &s.path,
        None,
        &root,
        &root,
    );
    assert!(matches!(r, Err(EngineError::InvalidArgument)));
}

#[test]
fn path_indices_must_be_distinct_and_in_range() {
    let mut s = scenario();
    s.path = vec![0, 1, 1, 3];
    assert!(matches!(positional(&s), Err(EngineError::InvalidArgument)));
    s.path = vec![0, 1, 2, 4];
    assert!(matches!(positional(&s), Err(EngineError::InvalidArgument)));
    s.path = vec![0, -1, 2, 3];
    assert!(matches!(positional(&s), Err(EngineError::InvalidArgument)));
    s.path = vec![3, 2, 1, 0];
    assert!(positional(&s).is_ok());
    s.path = vec![0, 1, 2];
    assert!(matches!(positional(&s), Err(EngineError::InvalidArgument)));
}

#[test]
fn leaf_count_must_be_power_of_two_of_depth() {
    // three leaves with one sibling each
    let r = assemble(
        vec![vec![fe(0); 256]; 3],
        vec![fe(1), fe(2), fe(3)],
        vec![fe(4), fe(5), fe(6)],
        vec![0, 1, 2],
        fe(7),
        fe(7),
        None,
    );
    assert!(matches!(r, Err(EngineError::InvalidArgument)));
    // two leaves with two siblings each: depth and leaf count disagree
    let r = assemble(
        vec![vec![fe(0); 256]; 2],
        vec![fe(1), fe(2), fe(3), fe(4)],
        vec![fe(4), fe(5)],
        vec![0, 1],
        fe(7),
        fe(7),
        None,
    );
    assert!(matches!(r, Err(EngineError::InvalidArgument)));
    // a single leaf and no siblings
    let r = assemble(vec![vec![fe(0); 256]], vec![], vec![fe(4)], vec![0], fe(7), fe(7), None);
    assert!(r.is_ok());
    // no leaves at all
    let r = assemble(vec![], vec![], vec![], vec![], fe(7), fe(7), None);
    assert!(matches!(r, Err(EngineError::InvalidArgument)));
}

#[test]
fn chunk_of_wrong_size() {
    let mut s = scenario();
    s.chunks[1].pop();
    let doc = structured_doc(&s);
    assert!(matches!(decode_structured(&doc), Err(EngineError::InvalidArgument)));
}

#[test]
fn structured_matches_positional() {
    let s = scenario();
    let a = positional(&s).unwrap();
    let b = decode_structured(&structured_doc(&s)).unwrap();
    assert!(same_request(&a, &b));
}

#[test]
fn structured_through_messagepack() {
    let s = scenario();
    let to_value = |x: &FieldElement| Value::Ext(EXT_ID_U256_LE, encode(x));
    let arr = |xs: &[FieldElement]| Value::Array(xs.iter().map(to_value).collect());
    let value = Value::Map(vec![
        (Value::from("chunks"), Value::Array(s.chunks.iter().map(|c| arr(c)).collect())),
        (Value::from("siblings"), arr(&s.siblings)),
        (Value::from("hashes"), arr(&s.hashes)),
        (Value::from("path"), Value::Array(s.path.iter().map(|p| Value::from(*p)).collect())),
        (Value::from("root"), to_value(&s.root)),
        (Value::from("salt"), to_value(&s.root)),
    ]);
    let mut buf = Vec::new();
    write_value(&mut buf, &value).unwrap();
    let mut rd: &[u8] = &buf[..];
    let doc = to_doc(&read_value(&mut rd).unwrap());
    let b = decode_structured(&doc).unwrap();
    assert!(same_request(&positional(&s).unwrap(), &b));
}

#[test]
fn tag_other_than_50() {
    let v = Doc::Ext(51, vec![0u8; 32]);
    assert_eq!(tagged_element(&v), Err(EngineError::SchemaMismatch));
}

#[test]
fn tagged_payload_not_32_bytes() {
    assert_eq!(tagged_element(&Doc::Ext(50, vec![0u8; 31])), Err(EngineError::SchemaMismatch));
    assert_eq!(tagged_element(&Doc::Ext(50, vec![0u8; 33])), Err(EngineError::SchemaMismatch));
    assert_eq!(tagged_element(&Doc::Bin(vec![0u8; 32])), Err(EngineError::SchemaMismatch));
    let mut payload = vec![0u8; 32];
    payload[0] = 5;
    assert_eq!(tagged_element(&Doc::Ext(50, payload)), Ok(fe(5)));
}

#[test]
fn structured_bad_tag_in_document() {
    let s = scenario();
    let mut doc = structured_doc(&s);
    if let Doc::Table(entries) = &mut doc {
        entries[4].1 = Doc::Ext(49, vec![0u8; 32]);
    }
    assert!(matches!(decode_structured(&doc), Err(EngineError::SchemaMismatch)));
}

#[test]
fn structured_missing_field() {
    let s = scenario();
    let mut doc = structured_doc(&s);
    if let Doc::Table(entries) = &mut doc {
        entries.remove(3);
    }
    assert!(matches!(decode_structured(&doc), Err(EngineError::MissingField)));
}

#[test]
fn structured_wrong_container() {
    assert!(matches!(decode_structured(&Doc::Array(vec![])), Err(EngineError::SchemaMismatch)));
    let s = scenario();
    let mut doc = structured_doc(&s);
    if let Doc::Table(entries) = &mut doc {
        entries[1].1 = ext(&s.root);
    }
    assert!(matches!(decode_structured(&doc), Err(EngineError::SchemaMismatch)));
}

#[test]
fn structured_helpers() {
    let ints = Doc::Array(vec![Doc::PosInt(3), Doc::NegInt(-2)]);
    assert_eq!(int_array(&ints), Ok(vec![3, -2]));
    assert_eq!(int_array(&Doc::Array(vec![Doc::Float])), Err(EngineError::SchemaMismatch));
    assert_eq!(tagged_elements(&ext_array(&[fe(1), fe(2)])), Ok(vec![fe(1), fe(2)]));
    let entries = vec![(key("a"), Doc::Nil), (key("b"), Doc::Bool(true))];
    assert!(matches!(find_field(&entries, &"b".to_string()), Ok(Doc::Bool(true))));
    assert!(matches!(find_field(&entries, &"c".to_string()), Err(EngineError::MissingField)));
}

#[test]
fn proof_ctx_copies_bytes() {
    let ctx = ProofCtx::new(&[1, 2, 3], &[4]);
    assert_eq!(ctx.proof.data, vec![1, 2, 3]);
    assert_eq!(ctx.public_inputs.data, vec![4]);
    assert_eq!(ctx.proof.len(), 3);
    let empty = Buffer { data: vec![] };
    assert_eq!(empty.len(), 0);
}

#[test]
fn prover_handle_references() {
    let h = ProverHandle::create(Some(b"a.r1cs"), Some(b"a.wasm"), None).unwrap();
    assert_eq!(h.circuit_spec, "a.r1cs");
    assert_eq!(h.witness_program, "a.wasm");
    assert_eq!(h.proving_key, None);
    let h = ProverHandle::create(Some(b"a.r1cs"), Some(b"a.wasm"), Some(b"k.zkey")).unwrap();
    assert_eq!(h.proving_key, Some("k.zkey".to_string()));
    assert!(matches!(
        ProverHandle::create(None, Some(b"a.wasm"), None),
        Err(EngineError::InvalidArgument)
    ));
    assert!(matches!(
        ProverHandle::create(Some(b"a.r1cs"), None, None),
        Err(EngineError::InvalidArgument)
    ));
    assert!(matches!(
        ProverHandle::create(Some(&[0xff, 0xfe]), Some(b"a.wasm"), None),
        Err(EngineError::InvalidArgument)
    ));
    assert!(matches!(
        ProverHandle::create(Some(b"a.r1cs"), Some(b"a.wasm"), Some(&[0xc0])),
        Err(EngineError::InvalidArgument)
    ));
}

#[test]
fn witness_inputs_in_leaf_order() {
    let s = scenario();
    let mut shuffled = s;
    shuffled.path = vec![2, 0, 3, 1];
    let req = positional(&shuffled).unwrap();
    let w = req.witness_inputs();
    assert_eq!(w.chunks, shuffled.chunks.concat());
    assert_eq!(w.siblings, shuffled.siblings);
    assert_eq!(w.hashes, shuffled.hashes);
    assert_eq!(w.path, vec![fe(2), fe(0), fe(3), fe(1)]);
    assert_eq!(w.root, shuffled.root);
    assert_eq!(w.salt, shuffled.root);
    assert_eq!(w.pubkey, None);
}

#[test]
fn registry_issues_and_invalidates() {
    let mut r: Registry<String> = Registry::new();
    let a = r.insert("a".to_string());
    let b = r.insert("b".to_string());
    assert_eq!(a, 0);
    assert_eq!(b, 1);
    assert_eq!(r.get(b), Ok(&"b".to_string()));
    assert_eq!(r.release(a), Ok("a".to_string()));
    assert_eq!(r.get(a), Err(EngineError::InvalidHandle));
    assert_eq!(r.release(a), Err(EngineError::InvalidHandle));
    assert_eq!(r.get(7), Err(EngineError::InvalidHandle));
    let c = r.insert("c".to_string());
    assert_eq!(c, 2);
    assert_eq!(r.get(b), Ok(&"b".to_string()));
}
