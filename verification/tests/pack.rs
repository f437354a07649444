use std::io::Write;

use packstore::delta::DeltaApply;
use packstore::errors::Error;
use packstore::header::encode_header;
use packstore::id::Id;
use packstore::objects::Type;
use packstore::pack::NullLookup;
use packstore::pack::ObjectLookup;
use packstore::pack::Store;
use packstore::packindex::Entry;
use packstore::packindex::Index;

/// A test double for the opaque delta-application collaborator: the
/// reconstructed content is the instruction buffer followed by the
/// base's content, which makes expected values easy to write down.
struct ConcatApply;

impl DeltaApply for ConcatApply {
    // The mathematical statement is a ghost member: it is erased from
    // compiled code and never runs.
    fn apply_spec(&self, _instructions: vstd::seq::Seq<u8>, _base: vstd::seq::Seq<u8>) -> vstd::seq::Seq<u8> {
        unreachable!()
    }

    fn apply(&self, instructions: &[u8], base: &[u8]) -> Vec<u8> {
        let mut out = instructions.to_vec();
        out.extend_from_slice(base);
        out
    }
}

/// A stub lookup that resolves every identifier to one fixed pair.
struct FixedLookup {
    ty: Type,
    content: Vec<u8>,
}

impl ObjectLookup for FixedLookup {
    // The mathematical statement is a ghost member: it is erased from
    // compiled code and never runs.
    fn lookup_spec(&self, _id: vstd::seq::Seq<u8>) -> Result<Option<(Type, vstd::seq::Seq<u8>)>, Error> {
        unreachable!()
    }

    fn lookup(&self, _id: &Id) -> Result<Option<(Type, Vec<u8>)>, Error> {
        Ok(Some((self.ty, self.content.clone())))
    }
}

fn zlib_compress(data: &[u8]) -> Vec<u8> {
    let mut encoder = flate2::write::ZlibEncoder::new(Vec::new(), flate2::Compression::default());
    encoder.write_all(data).unwrap();
    encoder.finish().unwrap()
}

/// The fixed twelve-byte archive prefix: magic, version 2, object count.
fn pack_prefix(count: u32) -> Vec<u8> {
    let mut pack = b"PACK".to_vec();
    pack.extend_from_slice(&2u32.to_be_bytes());
    pack.extend_from_slice(&count.to_be_bytes());
    pack
}

/// Appends a literal record for `payload` under `tag`, returning its
/// byte range.
fn push_literal(pack: &mut Vec<u8>, tag: u8, payload: &[u8]) -> (u64, u64) {
    let start = pack.len() as u64;
    pack.extend_from_slice(&encode_header(tag, payload.len() as u64));
    pack.extend_from_slice(&zlib_compress(payload));
    (start, pack.len() as u64)
}

/// Encodes a backward offset in the offset-delta form: seven bits per
/// byte, most significant group first, one added before each shift.
fn encode_offset(mut n: u64) -> Vec<u8> {
    let mut bytes = vec![(n & 0x7f) as u8];
    while n >= 128 {
        n = n / 128 - 1;
        bytes.insert(0, 0x80 | (n & 0x7f) as u8);
    }
    bytes
}

fn id_from_hex(hex: &str) -> Id {
    Id::from_str(hex).unwrap()
}

#[test]
fn can_load() {
    let payload = b"hello world, this is packed content";
    let mut pack = pack_prefix(1);
    let (start, end) = push_literal(&mut pack, 3, payload);
    pack.extend_from_slice(&[0u8; 20]);

    let id = id_from_hex("872e26b3fbebe64a2a85b271fed6916b964b4fde");
    let index = Index::new(vec![Entry { id: id.clone(), start, end }]);
    let store = Store::new(pack, Some(index)).expect("bad packfile");

    let (kind, stream) = store.get(&id, &NullLookup, &ConcatApply).expect("failure").unwrap();
    assert_eq!(kind, Type::Blob);
    assert!(!stream.is_empty());
    assert_eq!(stream, payload.to_vec());
}

#[test]
fn literal_records_keep_their_tag_and_payload() {
    let cases: Vec<(u8, Type, &[u8])> = vec![
        (1, Type::Commit, b"commit data"),
        (2, Type::Tree, b"tree data"),
        (3, Type::Blob, b""),
        (4, Type::Tag, b"tag data"),
    ];
    for (tag, ty, payload) in cases {
        let mut pack = pack_prefix(1);
        let (start, end) = push_literal(&mut pack, tag, payload);
        let id = Id::from_bytes(&[tag; 20]).unwrap();
        let index = Index::new(vec![Entry { id: id.clone(), start, end }]);
        let store = Store::new(pack, Some(index)).unwrap();
        let (kind, stream) = store.get(&id, &NullLookup, &ConcatApply).unwrap().unwrap();
        assert_eq!(kind, ty);
        assert_eq!(stream, payload.to_vec());
    }
}

#[test]
fn offset_delta_round_trip() {
    let base_payload = b"the base object content";
    let instructions = b"delta instructions";

    let mut pack = pack_prefix(2);
    let (base_start, base_end) = push_literal(&mut pack, 2, base_payload);

    let delta_start = pack.len() as u64;
    assert_eq!(base_end, delta_start);
    pack.extend_from_slice(&encode_header(6, instructions.len() as u64));
    pack.extend_from_slice(&encode_offset(delta_start - base_start));
    pack.extend_from_slice(&zlib_compress(instructions));
    let delta_end = pack.len() as u64;
    pack.extend_from_slice(&[0u8; 20]);

    let id = Id::from_bytes(&[9u8; 20]).unwrap();
    let index = Index::new(vec![Entry { id: id.clone(), start: delta_start, end: delta_end }]);
    let store = Store::new(pack, Some(index)).unwrap();

    let (kind, stream) = store.get(&id, &NullLookup, &ConcatApply).unwrap().unwrap();
    assert_eq!(kind, Type::Tree);
    let expected = ConcatApply.apply(instructions, base_payload);
    assert_eq!(stream, expected);
}

#[test]
fn offset_delta_chain_resolves_to_root() {
    let base_payload = b"root";
    let first_instr = b"one";
    let second_instr = b"two";

    let mut pack = pack_prefix(3);
    let (base_start, _) = push_literal(&mut pack, 3, base_payload);

    let first_start = pack.len() as u64;
    pack.extend_from_slice(&encode_header(6, first_instr.len() as u64));
    pack.extend_from_slice(&encode_offset(first_start - base_start));
    pack.extend_from_slice(&zlib_compress(first_instr));

    let second_start = pack.len() as u64;
    pack.extend_from_slice(&encode_header(6, second_instr.len() as u64));
    pack.extend_from_slice(&encode_offset(second_start - first_start));
    pack.extend_from_slice(&zlib_compress(second_instr));
    let second_end = pack.len() as u64;

    let id = Id::from_bytes(&[5u8; 20]).unwrap();
    let index = Index::new(vec![Entry { id: id.clone(), start: second_start, end: second_end }]);
    let store = Store::new(pack, Some(index)).unwrap();

    let (kind, stream) = store.get(&id, &NullLookup, &ConcatApply).unwrap().unwrap();
    assert_eq!(kind, Type::Blob);
    let first = ConcatApply.apply(first_instr, base_payload);
    let expected = ConcatApply.apply(second_instr, &first);
    assert_eq!(stream, expected);
}

#[test]
fn offset_delta_pointing_before_archive_is_corrupted() {
    let instructions = b"instr";
    let mut pack = pack_prefix(1);
    let delta_start = pack.len() as u64;
    pack.extend_from_slice(&encode_header(6, instructions.len() as u64));
    // An offset far larger than the record's own position.
    pack.extend_from_slice(&encode_offset(100_000));
    pack.extend_from_slice(&zlib_compress(instructions));
    let delta_end = pack.len() as u64;

    let id = Id::from_bytes(&[1u8; 20]).unwrap();
    let index = Index::new(vec![Entry { id: id.clone(), start: delta_start, end: delta_end }]);
    let store = Store::new(pack, Some(index)).unwrap();

    let r = store.get(&id, &NullLookup, &ConcatApply);
    assert_eq!(r, Err(Error::CorruptedPackfile));
}

#[test]
fn ref_delta_round_trip() {
    let base_content = b"looked up elsewhere";
    let instructions = b"patch";
    let base_id = [0xabu8; 20];

    let mut pack = pack_prefix(1);
    let start = pack.len() as u64;
    pack.extend_from_slice(&encode_header(7, instructions.len() as u64));
    pack.extend_from_slice(&base_id);
    pack.extend_from_slice(&zlib_compress(instructions));
    let end = pack.len() as u64;

    let id = Id::from_bytes(&[3u8; 20]).unwrap();
    let index = Index::new(vec![Entry { id: id.clone(), start, end }]);
    let store = Store::new(pack, Some(index)).unwrap();

    let lookup = FixedLookup { ty: Type::Tag, content: base_content.to_vec() };
    let (kind, stream) = store.get(&id, &lookup, &ConcatApply).unwrap().unwrap();
    assert_eq!(kind, Type::Tag);
    let expected = ConcatApply.apply(instructions, base_content);
    assert_eq!(stream, expected);
}

#[test]
fn ref_delta_with_unresolvable_base_is_corrupted() {
    let instructions = b"patch";
    let base_id = [0xcdu8; 20];

    let mut pack = pack_prefix(1);
    let start = pack.len() as u64;
    pack.extend_from_slice(&encode_header(7, instructions.len() as u64));
    pack.extend_from_slice(&base_id);
    pack.extend_from_slice(&zlib_compress(instructions));
    let end = pack.len() as u64;

    let id = Id::from_bytes(&[4u8; 20]).unwrap();
    let index = Index::new(vec![Entry { id: id.clone(), start, end }]);
    let store = Store::new(pack, Some(index)).unwrap();

    let r = store.get(&id, &NullLookup, &ConcatApply);
    assert_eq!(r, Err(Error::CorruptedPackfile));
}

#[test]
fn missing_identifier_is_no_object_not_an_error() {
    let mut pack = pack_prefix(1);
    let (start, end) = push_literal(&mut pack, 3, b"something");
    let present = Id::from_bytes(&[1u8; 20]).unwrap();
    let absent = Id::from_bytes(&[2u8; 20]).unwrap();
    let index = Index::new(vec![Entry { id: present, start, end }]);
    let store = Store::new(pack, Some(index)).unwrap();

    let r = store.get(&absent, &NullLookup, &ConcatApply);
    assert_eq!(r, Ok(None));
}

#[test]
fn truncated_header_in_record_is_corrupted() {
    // The record's only byte keeps the continuation bit set.
    let mut pack = pack_prefix(1);
    let start = pack.len() as u64;
    pack.push(0x90);
    let end = pack.len() as u64;

    let id = Id::from_bytes(&[6u8; 20]).unwrap();
    let index = Index::new(vec![Entry { id: id.clone(), start, end }]);
    let store = Store::new(pack, Some(index)).unwrap();

    let r = store.get(&id, &NullLookup, &ConcatApply);
    assert_eq!(r, Err(Error::CorruptedPackfile));
}

#[test]
fn unrecognised_tag_keeps_its_own_classification() {
    // Tag 5 names no record kind; the dispatch refuses it under its
    // own distinct error, not plain corruption.
    let mut pack = pack_prefix(1);
    let start = pack.len() as u64;
    pack.push(0x50);
    let end = pack.len() as u64;

    let id = Id::from_bytes(&[8u8; 20]).unwrap();
    let index = Index::new(vec![Entry { id: id.clone(), start, end }]);
    let store = Store::new(pack, Some(index)).unwrap();

    let r = store.get(&id, &NullLookup, &ConcatApply);
    assert_eq!(r, Err(Error::BadLooseObject));
}

#[test]
fn corrupt_compressed_payload_is_corrupted() {
    let mut pack = pack_prefix(1);
    let start = pack.len() as u64;
    pack.extend_from_slice(&encode_header(3, 4));
    // Two filter-prefix bytes, then bytes that are no deflate stream.
    pack.extend_from_slice(&[0x78, 0x9c, 0xff, 0xff, 0xff, 0xff]);
    let end = pack.len() as u64;

    let id = Id::from_bytes(&[7u8; 20]).unwrap();
    let index = Index::new(vec![Entry { id: id.clone(), start, end }]);
    let store = Store::new(pack, Some(index)).unwrap();

    let r = store.get(&id, &NullLookup, &ConcatApply);
    assert_eq!(r, Err(Error::CorruptedPackfile));
}

#[test]
fn store_without_index_is_not_implemented() {
    let pack = pack_prefix(0);
    match Store::new(pack, None) {
        Err(Error::NotImplemented) => {},
        _ => panic!("index construction must be reported as unavailable"),
    }
}

#[test]
fn build_index_is_not_implemented() {
    assert!(matches!(packstore::pack::build_index(b"PACK"), Err(Error::NotImplemented)));
}

#[test]
fn tag_zero_decodes_but_names_no_kind() {
    // The record dispatch admits tag 0, but the mapping to a public
    // kind refuses it.
    let payload = b"zero";
    let mut pack = pack_prefix(1);
    let (start, end) = push_literal(&mut pack, 0, payload);
    let id = Id::from_bytes(&[0u8; 20]).unwrap();
    let index = Index::new(vec![Entry { id: id.clone(), start, end }]);
    let store = Store::new(pack, Some(index)).unwrap();

    let (tag, stream) = store.read_bounds(start, end, &NullLookup, &ConcatApply).unwrap();
    assert_eq!(tag, 0);
    assert_eq!(stream, payload.to_vec());
    assert_eq!(store.get(&id, &NullLookup, &ConcatApply), Err(Error::CorruptedPackfile));
}

#[test]
fn inverted_range_is_corrupted() {
    let mut pack = pack_prefix(1);
    let (start, end) = push_literal(&mut pack, 3, b"data");
    let id = Id::from_bytes(&[11u8; 20]).unwrap();
    let index = Index::new(vec![Entry { id: id.clone(), start: end, end: start }]);
    let store = Store::new(pack, Some(index)).unwrap();

    assert_eq!(store.get(&id, &NullLookup, &ConcatApply), Err(Error::CorruptedPackfile));
}

#[test]
fn range_past_archive_end_is_corrupted() {
    let mut pack = pack_prefix(1);
    let len = pack.len() as u64;
    let id = Id::from_bytes(&[12u8; 20]).unwrap();
    let index = Index::new(vec![Entry { id: id.clone(), start: len + 5, end: len + 9 }]);
    let store = Store::new(pack, Some(index)).unwrap();

    assert_eq!(store.get(&id, &NullLookup, &ConcatApply), Err(Error::CorruptedPackfile));
}

#[test]
fn window_caps_at_archive_end() {
    // A range whose declared end runs past the archive still resolves
    // when the compressed stream is complete before the end.
    let payload = b"capped";
    let mut pack = pack_prefix(1);
    let (start, end) = push_literal(&mut pack, 3, payload);
    let id = Id::from_bytes(&[13u8; 20]).unwrap();
    let index = Index::new(vec![Entry { id: id.clone(), start, end: end + 1000 }]);
    let store = Store::new(pack, Some(index)).unwrap();

    let (kind, stream) = store.get(&id, &NullLookup, &ConcatApply).unwrap().unwrap();
    assert_eq!(kind, Type::Blob);
    assert_eq!(stream, payload.to_vec());
}

#[test]
fn read_bounds_exposes_raw_tag() {
    let payload = b"raw";
    let mut pack = pack_prefix(1);
    let (start, end) = push_literal(&mut pack, 4, payload);
    let index = Index::new(vec![]);
    let store = Store::new(pack, Some(index)).unwrap();

    let (tag, stream) = store.read_bounds(start, end, &NullLookup, &ConcatApply).unwrap();
    assert_eq!(tag, 4);
    assert_eq!(stream, payload.to_vec());
}
