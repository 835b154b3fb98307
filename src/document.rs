use vstd::prelude::*;

use crate::error::EngineError;
use crate::field::{decode, element_of_bytes, FieldElement};
use crate::request::{assemble, assembled, parts_of, Parts, ProofRequest, RequestModel};

verus! {

/// Extension type that marks a 256-bit little-endian value.
pub const EXT_ID_U256_LE: i8 = 50;

/// A self-describing document value, as a MessagePack reader hands it over.
pub enum Doc {
    Nil,
    Bool(bool),
    /// A non-negative integer.
    PosInt(u64),
    /// A negative integer.
    NegInt(i64),
    /// A floating-point value; the schema never reads its payload.
    Float,
    Str(String),
    Bin(Vec<u8>),
    Array(Vec<Doc>),
    /// A map, as its key-value entries in order.
    Table(Vec<(Doc, Doc)>),
    /// An extension value: its type tag and payload.
    Ext(i8, Vec<u8>),
}

/// The value under the first entry whose key is the text `key`.
pub open spec fn lookup(entries: Seq<(Doc, Doc)>, key: Seq<char>) -> Option<Doc>
    decreases entries.len(),
{
    if entries.len() == 0 {
        None
    } else if entries[0].0 matches Doc::Str(s) && s@ == key {
        Some(entries[0].1)
    } else {
        lookup(entries.drop_first(), key)
    }
}

/// The value under `key`, or `MissingField`.
pub open spec fn fetch(entries: Seq<(Doc, Doc)>, key: Seq<char>) -> Result<Doc, EngineError> {
    match lookup(entries, key) {
        Some(v) => Ok(v),
        None => Err(EngineError::MissingField),
    }
}

/// A tagged 256-bit value: extension type 50 with exactly 32 payload bytes.
pub open spec fn spec_tagged_element(v: Doc) -> Result<FieldElement, EngineError> {
    match v {
        Doc::Ext(tag, payload) => if tag == EXT_ID_U256_LE && payload@.len() == 32 {
            Ok(element_of_bytes(payload@))
        } else {
            Err(EngineError::SchemaMismatch)
        },
        _ => Err(EngineError::SchemaMismatch),
    }
}

/// An array of tagged 256-bit values.
pub open spec fn spec_tagged_elements(v: Doc) -> Result<Seq<FieldElement>, EngineError> {
    match v {
        Doc::Array(items) => if forall|i: int|
            0 <= i < items@.len() ==> #[trigger] spec_tagged_element(items@[i]) is Ok {
            Ok(Seq::new(items@.len(), |i: int| spec_tagged_element(items@[i])->Ok_0))
        } else {
            Err(EngineError::SchemaMismatch)
        },
        _ => Err(EngineError::SchemaMismatch),
    }
}

/// An array of arrays of tagged 256-bit values.
pub open spec fn spec_tagged_chunks(v: Doc) -> Result<Seq<Seq<FieldElement>>, EngineError> {
    match v {
        Doc::Array(items) => if forall|i: int|
            0 <= i < items@.len() ==> #[trigger] spec_tagged_elements(items@[i]) is Ok {
            Ok(Seq::new(items@.len(), |i: int| spec_tagged_elements(items@[i])->Ok_0))
        } else {
            Err(EngineError::SchemaMismatch)
        },
        _ => Err(EngineError::SchemaMismatch),
    }
}

/// The integer a value holds, if it is one.
pub open spec fn spec_int(v: Doc) -> Option<int> {
    match v {
        Doc::PosInt(u) => Some(u as int),
        Doc::NegInt(x) => Some(x as int),
        _ => None,
    }
}

/// An array of integers.
pub open spec fn spec_int_array(v: Doc) -> Result<Seq<int>, EngineError> {
    match v {
        Doc::Array(items) => if forall|i: int|
            0 <= i < items@.len() ==> #[trigger] spec_int(items@[i]) is Some {
            Ok(Seq::new(items@.len(), |i: int| spec_int(items@[i])->Some_0))
        } else {
            Err(EngineError::SchemaMismatch)
        },
        _ => Err(EngineError::SchemaMismatch),
    }
}

/// The parts a structured document carries. The fields are read in the
/// order chunks, siblings, hashes, path, root, salt; the first one that is
/// missing (`MissingField`) or ill-shaped (`SchemaMismatch`) decides the
/// error. A document that is not a map is a `SchemaMismatch`.
pub open spec fn structured_parts(doc: Doc) -> Result<Parts, EngineError> {
    match doc {
        Doc::Table(entries) => {
            let e = entries@;
            let chunks = match fetch(e, "chunks"@) {
                Ok(v) => spec_tagged_chunks(v),
                Err(x) => Err(x),
            };
            let siblings = match fetch(e, "siblings"@) {
                Ok(v) => spec_tagged_elements(v),
                Err(x) => Err(x),
            };
            let hashes = match fetch(e, "hashes"@) {
                Ok(v) => spec_tagged_elements(v),
                Err(x) => Err(x),
            };
            let path = match fetch(e, "path"@) {
                Ok(v) => spec_int_array(v),
                Err(x) => Err(x),
            };
            let root = match fetch(e, "root"@) {
                Ok(v) => spec_tagged_element(v),
                Err(x) => Err(x),
            };
            let salt = match fetch(e, "salt"@) {
                Ok(v) => spec_tagged_element(v),
                Err(x) => Err(x),
            };
            if chunks is Err {
                Err(chunks->Err_0)
            } else if siblings is Err {
                Err(siblings->Err_0)
            } else if hashes is Err {
                Err(hashes->Err_0)
            } else if path is Err {
                Err(path->Err_0)
            } else if root is Err {
                Err(root->Err_0)
            } else if salt is Err {
                Err(salt->Err_0)
            } else {
                Ok(
                    Parts {
                        chunks: chunks->Ok_0,
                        siblings: siblings->Ok_0,
                        hashes: hashes->Ok_0,
                        path: path->Ok_0,
                        root: root->Ok_0,
                        salt: salt->Ok_0,
                        pubkey: None,
                    },
                )
            }
        },
        _ => Err(EngineError::SchemaMismatch),
    }
}

/// What the structured format decodes to.
pub open spec fn structured_request(doc: Doc) -> Result<RequestModel, EngineError> {
    match structured_parts(doc) {
        Ok(p) => assembled(p),
        Err(e) => Err(e),
    }
}

/// The value under the first entry whose key is the text `key`.
pub fn find_field<'a>(entries: &'a Vec<(Doc, Doc)>, key: &String) -> (r: Result<&'a Doc, EngineError>)
    ensures
        r matches Ok(v) ==> fetch(entries@, key@) == Ok::<Doc, EngineError>(*v),
        r matches Err(e) ==> fetch(entries@, key@) == Err::<Doc, EngineError>(e),
{
    let mut i: usize = 0;
    assert(entries@.subrange(0, entries@.len() as int) == entries@);
    while i < entries.len()
        invariant
            i <= entries@.len(),
            lookup(entries@, key@) == lookup(entries@.subrange(i as int, entries@.len() as int), key@),
        decreases entries@.len() - i,
    {
        let ghost rest = entries@.subrange(i as int, entries@.len() as int);
        assert(rest.drop_first() == entries@.subrange(i + 1, entries@.len() as int));
        if let Doc::Str(s) = &entries[i].0 {
            if *s == *key {
                return Ok(&entries[i].1);
            }
        }
        i += 1;
    }
    Err(EngineError::MissingField)
}

/// Reads a tagged 256-bit value: extension type 50 with exactly 32
/// little-endian payload bytes; anything else is a `SchemaMismatch`.
pub fn tagged_element(v: &Doc) -> (r: Result<FieldElement, EngineError>)
    ensures
        r matches Ok(x) ==> spec_tagged_element(*v) == Ok::<FieldElement, EngineError>(x),
        r matches Err(e) ==> spec_tagged_element(*v) == Err::<FieldElement, EngineError>(e),
{
    match v {
        Doc::Ext(tag, payload) => {
            if *tag == EXT_ID_U256_LE && payload.len() == 32 {
                match decode(payload.as_slice()) {
                    Ok(x) => Ok(x),
                    Err(_) => Err(EngineError::SchemaMismatch),
                }
            } else {
                Err(EngineError::SchemaMismatch)
            }
        },
        _ => Err(EngineError::SchemaMismatch),
    }
}

/// Reads an array of tagged 256-bit values.
pub fn tagged_elements(v: &Doc) -> (r: Result<Vec<FieldElement>, EngineError>)
    ensures
        r matches Ok(xs) ==> spec_tagged_elements(*v) == Ok::<Seq<FieldElement>, EngineError>(xs@),
        r matches Err(e) ==> spec_tagged_elements(*v) == Err::<Seq<FieldElement>, EngineError>(e),
{
    match v {
        Doc::Array(items) => {
            let mut out: Vec<FieldElement> = Vec::new();
            let mut i: usize = 0;
            while i < items.len()
                invariant
                    *v == Doc::Array(*items),
                    i <= items@.len(),
                    out@.len() == i,
                    forall|k: int|
                        0 <= k < i ==> #[trigger] spec_tagged_element(items@[k])
                            == Ok::<FieldElement, EngineError>(out@[k]),
                decreases items@.len() - i,
            {
                match tagged_element(&items[i]) {
                    Ok(x) => out.push(x),
                    Err(e) => {
                        assert(spec_tagged_element(items@[i as int]) is Err);
                        return Err(e);
                    },
                }
                i += 1;
            }
            assert(out@ =~= Seq::new(items@.len(), |k: int| spec_tagged_element(items@[k])->Ok_0));
            Ok(out)
        },
        _ => Err(EngineError::SchemaMismatch),
    }
}

/// Reads an array of arrays of tagged 256-bit values.
pub fn tagged_chunks(v: &Doc) -> (r: Result<Vec<Vec<FieldElement>>, EngineError>)
    ensures
        r matches Ok(cs) ==> spec_tagged_chunks(*v) == Ok::<Seq<Seq<FieldElement>>, EngineError>(
            cs@.map_values(|c: Vec<FieldElement>| c@),
        ),
        r matches Err(e) ==> spec_tagged_chunks(*v) == Err::<Seq<Seq<FieldElement>>, EngineError>(e),
{
    match v {
        Doc::Array(items) => {
            let mut out: Vec<Vec<FieldElement>> = Vec::new();
            let mut i: usize = 0;
            while i < items.len()
                invariant
                    *v == Doc::Array(*items),
                    i <= items@.len(),
                    out@.len() == i,
                    forall|k: int|
                        0 <= k < i ==> #[trigger] spec_tagged_elements(items@[k]) == Ok::<
                            Seq<FieldElement>,
                            EngineError,
                        >(out@[k]@),
                decreases items@.len() - i,
            {
                match tagged_elements(&items[i]) {
                    Ok(x) => out.push(x),
                    Err(e) => {
                        assert(spec_tagged_elements(items@[i as int]) is Err);
                        return Err(e);
                    },
                }
                i += 1;
            }
            assert(out@.map_values(|c: Vec<FieldElement>| c@) =~= Seq::new(
                items@.len(),
                |k: int| spec_tagged_elements(items@[k])->Ok_0,
            ));
            Ok(out)
        },
        _ => Err(EngineError::SchemaMismatch),
    }
}

/// Reads an array of integers.
pub fn int_array(v: &Doc) -> (r: Result<Vec<i128>, EngineError>)
    ensures
        r matches Ok(xs) ==> spec_int_array(*v) == Ok::<Seq<int>, EngineError>(
            xs@.map_values(|x: i128| x as int),
        ),
        r matches Err(e) ==> spec_int_array(*v) == Err::<Seq<int>, EngineError>(e),
{
    match v {
        Doc::Array(items) => {
            let mut out: Vec<i128> = Vec::new();
            let mut i: usize = 0;
            while i < items.len()
                invariant
                    *v == Doc::Array(*items),
                    i <= items@.len(),
                    out@.len() == i,
                    forall|k: int|
                        0 <= k < i ==> #[trigger] spec_int(items@[k]) == Some(out@[k] as int),
                decreases items@.len() - i,
            {
                match &items[i] {
                    Doc::PosInt(u) => out.push(*u as i128),
                    Doc::NegInt(x) => out.push(*x as i128),
                    _ => {
                        assert(spec_int(items@[i as int]) is None);
                        return Err(EngineError::SchemaMismatch);
                    },
                }
                i += 1;
            }
            assert(out@.map_values(|x: i128| x as int) =~= Seq::new(
                items@.len(),
                |k: int| spec_int(items@[k])->Some_0,
            ));
            Ok(out)
        },
        _ => Err(EngineError::SchemaMismatch),
    }
}

/// Decodes the structured format: a map with the keys `chunks` (array of
/// arrays of tagged values), `siblings` and `hashes` (arrays of tagged
/// values), `path` (array of integers), `root` and `salt` (tagged values).
pub fn decode_structured(doc: &Doc) -> (r: Result<ProofRequest, EngineError>)
    ensures
        r matches Ok(req) ==> structured_request(*doc) == Ok::<RequestModel, EngineError>(req@),
        r matches Err(e) ==> structured_request(*doc) == Err::<RequestModel, EngineError>(e),
{
    let entries = match doc {
        Doc::Table(entries) => entries,
        _ => return Err(EngineError::SchemaMismatch),
    };
    let chunks = tagged_chunks(find_field(entries, &"chunks".to_owned())?)?;
    let siblings = tagged_elements(find_field(entries, &"siblings".to_owned())?)?;
    let hashes = tagged_elements(find_field(entries, &"hashes".to_owned())?)?;
    let path = int_array(find_field(entries, &"path".to_owned())?)?;
    let root = tagged_element(find_field(entries, &"root".to_owned())?)?;
    let salt = tagged_element(find_field(entries, &"salt".to_owned())?)?;
    let ghost p = parts_of(chunks@, siblings@, hashes@, path@, root, salt, None);
    assert(structured_parts(*doc) == Ok::<Parts, EngineError>(p));
    assemble(chunks, siblings, hashes, path, root, salt, None)
}

} // verus!
