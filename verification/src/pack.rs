use vstd::prelude::*;

use crate::delta::DeltaApply;
use crate::delta::OFS_DELTA;
use crate::delta::REF_DELTA;
use crate::errors::Error;
use crate::header::continues;
use crate::header::decode_header;
use crate::header::decode_offset;
use crate::header::encode_header_spec;
use crate::header::encode_offset_spec;
use crate::header::header_spec;
use crate::header::lemma_header_round_trip;
use crate::header::lemma_offset_round_trip;
use crate::header::lemma_truncated_header;
use crate::header::offset_spec;
use crate::id::Id;
use crate::inflate::inflate;
use crate::inflate::inflate_of;
use crate::objects::tag_of_type;
use crate::objects::type_of_tag;
use crate::objects::Type;
use crate::packindex::bounds_of;
use crate::packindex::Index;

verus! {

/// How an executable resolution result relates to its mathematical
/// counterpart: same shape, with owned bytes standing for sequences.
pub open spec fn resolution_matches(
    r: Result<Option<(Type, Vec<u8>)>, Error>,
    s: Result<Option<(Type, Seq<u8>)>, Error>,
) -> bool {
    match (r, s) {
        (Ok(None), Ok(None)) => true,
        (Ok(Some((t, v))), Ok(Some((ts, vs)))) => t == ts && v@ == vs,
        (Err(e), Err(es)) => e == es,
        _ => false,
    }
}

/// The external object-resolution capability handed to `Store::get`: it
/// may search other archives or loose objects for a base object named
/// by a reference delta. An implementation chooses `lookup_spec` as the
/// statement of what it resolves and proves, or is trusted to honour,
/// `lookup` against it.
pub trait ObjectLookup {
    /// What this source resolves an identifier to: an object's kind and
    /// content, absence, or a failure of the source itself.
    spec fn lookup_spec(&self, id: Seq<u8>) -> Result<Option<(Type, Seq<u8>)>, Error>;

    /// Resolves an identifier against this source.
    fn lookup(&self, id: &Id) -> (r: Result<Option<(Type, Vec<u8>)>, Error>)
        ensures
            resolution_matches(r, self.lookup_spec(id@)),
    ;
}

/// A lookup that knows no objects. A reference delta resolved against
/// it fails as corruption.
pub struct NullLookup;

impl ObjectLookup for NullLookup {
    open spec fn lookup_spec(&self, id: Seq<u8>) -> Result<Option<(Type, Seq<u8>)>, Error> {
        Ok(None)
    }

    fn lookup(&self, id: &Id) -> (r: Result<Option<(Type, Vec<u8>)>, Error>) {
        Ok(None)
    }
}

/// Where the readable window of a record ends: its declared end, capped
/// at the archive's length. Bytes promised beyond the archive are
/// simply not there, which every read then reports as truncation.
pub open spec fn window_end(pack: Seq<u8>, end: int) -> int {
    if end <= pack.len() {
        end
    } else {
        pack.len() as int
    }
}

/// What resolving the record in `[start, end)` of the archive yields:
/// the record's type tag and fully reconstructed content, or the error
/// that decoding reports.
///
/// A literal record (tag 0 through 4) is its decompressed payload.
/// Tag 0 names none of the four public kinds, yet the dispatch here
/// deliberately admits the whole historical range 0 through 4 rather
/// than silently narrowing it; `get` refuses tag 0 after the mapping
/// step. An
/// offset delta names a base record ending where this one starts, at a
/// backward distance that must stay inside the archive; its
/// decompressed instructions are applied to the base's content and the
/// base's tag is inherited, through the whole chain. A reference delta
/// names its base by identifier, resolved by the external lookup; a
/// base the lookup cannot produce is corruption, not absence. Tag 5 is
/// refused under its own distinct classification.
pub open spec fn rb_spec<L: ObjectLookup, A: DeltaApply>(
    pack: Seq<u8>,
    start: int,
    end: int,
    lookup: L,
    apply: A,
) -> Result<(u8, Seq<u8>), Error>
    decreases start,
{
    let w = window_end(pack, end);
    match header_spec(pack, start, w) {
        None => Err(Error::CorruptedPackfile),
        Some((tag, size, pos)) => if size > u64::MAX {
            Err(Error::CorruptedPackfile)
        } else if tag <= 4 {
            if pos + 2 > w {
                Err(Error::CorruptedPackfile)
            } else {
                match inflate_of(pack.subrange(pos + 2, w)) {
                    None => Err(Error::CorruptedPackfile),
                    Some(content) => Ok((tag, content)),
                }
            }
        } else if tag == OFS_DELTA {
            match offset_spec(pack, pos, w) {
                None => Err(Error::CorruptedPackfile),
                Some((ofs, pos2)) => if ofs > u64::MAX {
                    Err(Error::CorruptedPackfile)
                } else if pos2 + 2 > w {
                    Err(Error::CorruptedPackfile)
                } else {
                    match inflate_of(pack.subrange(pos2 + 2, w)) {
                        None => Err(Error::CorruptedPackfile),
                        Some(instructions) => if ofs == 0 || ofs > start {
                            Err(Error::CorruptedPackfile)
                        } else {
                            match rb_spec(pack, start - ofs, start, lookup, apply) {
                                Err(e) => Err(e),
                                Ok((base_tag, base)) => Ok(
                                    (base_tag, apply.apply_spec(instructions, base)),
                                ),
                            }
                        },
                    }
                },
            }
        } else if tag == REF_DELTA {
            if pos + 22 > w {
                Err(Error::CorruptedPackfile)
            } else {
                match inflate_of(pack.subrange(pos + 22, w)) {
                    None => Err(Error::CorruptedPackfile),
                    Some(instructions) => match lookup.lookup_spec(
                        pack.subrange(pos, pos + 20),
                    ) {
                        Err(e) => Err(e),
                        Ok(None) => Err(Error::CorruptedPackfile),
                        Ok(Some((ty, base))) => Ok(
                            (tag_of_type(ty), apply.apply_spec(instructions, base)),
                        ),
                    },
                }
            }
        } else {
            Err(Error::BadLooseObject)
        },
    }
}

/// What `Store::get` yields for an identifier: `Ok(None)` when the
/// index has no entry for it, otherwise the resolution of the entry's
/// byte range, whose tag must name one of the four literal kinds.
pub open spec fn get_spec<L: ObjectLookup, A: DeltaApply>(
    pack: Seq<u8>,
    index: Seq<(Seq<u8>, u64, u64)>,
    id: Seq<u8>,
    lookup: L,
    apply: A,
) -> Result<Option<(Type, Seq<u8>)>, Error> {
    match bounds_of(index, id) {
        None => Ok(None),
        Some((start, end)) => match rb_spec(pack, start as int, end as int, lookup, apply) {
            Err(e) => Err(e),
            Ok((tag, content)) => match type_of_tag(tag) {
                None => Err(Error::CorruptedPackfile),
                Some(ty) => Ok(Some((ty, content))),
            },
        },
    }
}

/// Builds an index by scanning a raw archive. Index construction is an
/// external collaborator's job and is not available here; a pre-built
/// index must be supplied instead.
pub fn build_index(pack: &[u8]) -> (r: Result<Index, Error>)
    ensures
        r matches Err(e) && e == Error::NotImplemented,
{
    Err(Error::NotImplemented)
}

/// One archive and its index. Constructed once, never mutated; every
/// resolution is a function of the archive bytes, the index, and the
/// collaborators handed to the call.
pub struct Store {
    pack: Vec<u8>,
    index: Index,
}

impl Store {
    /// The archive's bytes.
    pub closed spec fn pack_bytes(&self) -> Seq<u8> {
        self.pack@
    }

    /// The index's entries.
    pub closed spec fn index_entries(&self) -> Seq<(Seq<u8>, u64, u64)> {
        self.index@
    }

    /// Opens a store over an archive's bytes. Without a pre-built index
    /// nothing can be resolved: index construction is not available.
    pub fn new(pack: Vec<u8>, index: Option<Index>) -> (r: Result<Store, Error>)
        ensures
            match r {
                Ok(store) => index matches Some(idx) && store.pack_bytes() == pack@
                    && store.index_entries() == idx@,
                Err(e) => index is None && e == Error::NotImplemented,
            },
    {
        match index {
            Some(idx) => Ok(Store { pack, index: idx }),
            None => match build_index(pack.as_slice()) {
                Ok(idx) => Ok(Store { pack, index: idx }),
                Err(e) => Err(e),
            },
        }
    }

    /// Resolves the record in `[start, end)`: its type tag and its
    /// fully reconstructed content. An offset delta re-enters this same
    /// resolution at the base's range; a reference delta asks `lookup`
    /// for its base; `apply` reconstructs delta content.
    pub fn read_bounds<L: ObjectLookup, A: DeltaApply>(
        &self,
        start: u64,
        end: u64,
        lookup: &L,
        apply: &A,
    ) -> (r: Result<(u8, Vec<u8>), Error>)
        ensures
            match r {
                Ok(p) => rb_spec(self.pack_bytes(), start as int, end as int, *lookup, *apply)
                    == Ok::<(u8, Seq<u8>), Error>((p.0, p.1@)),
                Err(e) => rb_spec(self.pack_bytes(), start as int, end as int, *lookup, *apply)
                    == Err::<(u8, Seq<u8>), Error>(e),
            },
        decreases start,
    {
        let pack_len: usize = self.pack.len();
        let w: usize = if end > pack_len as u64 {
            pack_len
        } else {
            end as usize
        };
        if start >= w as u64 {
            return Err(Error::CorruptedPackfile);
        }
        let s: usize = start as usize;
        match decode_header(self.pack.as_slice(), s, w) {
            Err(e) => Err(e),
            // The declared size is informational: the decompressed
            // length is authoritative, so only the tag steers dispatch.
            Ok((tag, _size, pos)) => {
                if tag <= 4 {
                    if w - pos < 2 {
                        return Err(Error::CorruptedPackfile);
                    }
                    let data = vstd::slice::slice_subrange(self.pack.as_slice(), pos + 2, w);
                    match inflate(data) {
                        Ok(content) => Ok((tag, content)),
                        Err(e) => Err(e),
                    }
                } else if tag == OFS_DELTA {
                    match decode_offset(self.pack.as_slice(), pos, w) {
                        Err(e) => Err(e),
                        Ok((ofs, pos2)) => {
                            if w - pos2 < 2 {
                                return Err(Error::CorruptedPackfile);
                            }
                            let instructions = match inflate(
                                vstd::slice::slice_subrange(self.pack.as_slice(), pos2 + 2, w),
                            ) {
                                Ok(v) => v,
                                Err(e) => {
                                    return Err(e);
                                },
                            };
                            if ofs == 0 || ofs > start {
                                return Err(Error::CorruptedPackfile);
                            }
                            match self.read_bounds(start - ofs, start, lookup, apply) {
                                Err(e) => Err(e),
                                Ok((base_tag, base)) => {
                                    let content = apply.apply(
                                        instructions.as_slice(),
                                        base.as_slice(),
                                    );
                                    Ok((base_tag, content))
                                },
                            }
                        },
                    }
                } else if tag == REF_DELTA {
                    if w - pos < 22 {
                        return Err(Error::CorruptedPackfile);
                    }
                    let id_bytes = vstd::slice::slice_subrange(
                        self.pack.as_slice(),
                        pos,
                        pos + 20,
                    );
                    let id = match Id::from_bytes(id_bytes) {
                        Some(id) => id,
                        None => {
                            // Twenty bytes were just taken, so the
                            // identifier always builds.
                            proof {
                                assert(false);
                            }
                            return Err(Error::CorruptedPackfile);
                        },
                    };
                    let instructions = match inflate(
                        vstd::slice::slice_subrange(self.pack.as_slice(), pos + 22, w),
                    ) {
                        Ok(v) => v,
                        Err(e) => {
                            return Err(e);
                        },
                    };
                    match lookup.lookup(&id) {
                        Err(e) => Err(e),
                        Ok(None) => Err(Error::CorruptedPackfile),
                        Ok(Some((ty, base))) => {
                            let content = apply.apply(instructions.as_slice(), base.as_slice());
                            Ok((ty.to_tag(), content))
                        },
                    }
                } else {
                    Err(Error::BadLooseObject)
                }
            },
        }
    }

    /// Resolves an identifier: `Ok(None)` when the index has no entry
    /// for it; otherwise the object's kind and content, reconstructed
    /// through any delta chain.
    pub fn get<L: ObjectLookup, A: DeltaApply>(
        &self,
        id: &Id,
        lookup: &L,
        apply: &A,
    ) -> (r: Result<Option<(Type, Vec<u8>)>, Error>)
        ensures
            resolution_matches(
                r,
                get_spec(self.pack_bytes(), self.index_entries(), id@, *lookup, *apply),
            ),
    {
        let (start, end) = match self.index.get_bounds(id) {
            Some(b) => b,
            None => {
                return Ok(None);
            },
        };
        match self.read_bounds(start, end, lookup, apply) {
            Err(e) => Err(e),
            Ok((tag, content)) => match Type::from_tag(tag) {
                Some(ty) => Ok(Some((ty, content))),
                None => Err(Error::CorruptedPackfile),
            },
        }
    }
}

/// A literal record decodes to its own tag and its decompressed
/// payload: wherever a record window holds the canonical header for a
/// literal tag and declared size, the two-byte filter prefix, and a
/// compressed stream of the payload, resolution yields exactly that tag
/// and that payload.
pub proof fn lemma_literal_record<L: ObjectLookup, A: DeltaApply>(
    pack: Seq<u8>,
    start: int,
    end: int,
    tag: u8,
    size: u64,
    payload: Seq<u8>,
    lookup: L,
    apply: A,
)
    requires
        tag <= 4,
        0 <= start,
        start + encode_header_spec(tag, size as nat).len() + 2 <= end,
        end <= pack.len(),
        pack.subrange(start, start + encode_header_spec(tag, size as nat).len())
            == encode_header_spec(tag, size as nat),
        inflate_of(pack.subrange(start + encode_header_spec(tag, size as nat).len() + 2, end))
            == Some(payload),
    ensures
        rb_spec(pack, start, end, lookup, apply) == Ok::<(u8, Seq<u8>), Error>((tag, payload)),
{
    lemma_header_round_trip(pack, start, end, tag, size as nat);
}

/// A truncated header is corruption, never a hang: when every byte the
/// record's window still offers keeps the continuation bit set, the
/// header cannot complete and resolution reports the malformed record.
pub proof fn lemma_truncated_record<L: ObjectLookup, A: DeltaApply>(
    pack: Seq<u8>,
    start: int,
    end: int,
    lookup: L,
    apply: A,
)
    requires
        forall|i: int| start <= i < window_end(pack, end) ==> continues(pack[i]),
    ensures
        rb_spec(pack, start, end, lookup, apply) == Err::<(u8, Seq<u8>), Error>(
            Error::CorruptedPackfile,
        ),
{
    lemma_truncated_header(pack, start, window_end(pack, end));
}

/// The offset-delta round trip: a delta record whose canonical backward
/// offset names a base record ending where this one starts resolves to
/// the base's tag and to the delta instructions applied to the base's
/// content.
pub proof fn lemma_offset_delta_record<L: ObjectLookup, A: DeltaApply>(
    pack: Seq<u8>,
    base_start: int,
    start: int,
    end: int,
    size: u64,
    instructions: Seq<u8>,
    base_tag: u8,
    base_content: Seq<u8>,
    lookup: L,
    apply: A,
)
    requires
        0 <= base_start < start,
        start - base_start <= u64::MAX,
        end <= pack.len(),
        pack.subrange(start, start + encode_header_spec(OFS_DELTA, size as nat).len())
            == encode_header_spec(OFS_DELTA, size as nat),
        pack.subrange(
            start + encode_header_spec(OFS_DELTA, size as nat).len(),
            start + encode_header_spec(OFS_DELTA, size as nat).len() + encode_offset_spec(
                (start - base_start) as nat,
            ).len(),
        ) == encode_offset_spec((start - base_start) as nat),
        start + encode_header_spec(OFS_DELTA, size as nat).len() + encode_offset_spec(
            (start - base_start) as nat,
        ).len() + 2 <= end,
        inflate_of(
            pack.subrange(
                start + encode_header_spec(OFS_DELTA, size as nat).len() + encode_offset_spec(
                    (start - base_start) as nat,
                ).len() + 2,
                end,
            ),
        ) == Some(instructions),
        rb_spec(pack, base_start, start, lookup, apply) == Ok::<(u8, Seq<u8>), Error>(
            (base_tag, base_content),
        ),
    ensures
        rb_spec(pack, start, end, lookup, apply) == Ok::<(u8, Seq<u8>), Error>(
            (base_tag, apply.apply_spec(instructions, base_content)),
        ),
{
    lemma_header_round_trip(pack, start, end, OFS_DELTA, size as nat);
    lemma_offset_round_trip(
        pack,
        start + encode_header_spec(OFS_DELTA, size as nat).len(),
        end,
        (start - base_start) as nat,
    );
}

/// The reference-delta round trip: when the lookup resolves the named
/// base to a kind and content, the record resolves to that kind's tag
/// and to the delta instructions applied to that content.
pub proof fn lemma_ref_delta_record<L: ObjectLookup, A: DeltaApply>(
    pack: Seq<u8>,
    start: int,
    end: int,
    size: u64,
    ty: Type,
    base_content: Seq<u8>,
    instructions: Seq<u8>,
    lookup: L,
    apply: A,
)
    requires
        0 <= start,
        start + encode_header_spec(REF_DELTA, size as nat).len() + 22 <= end,
        end <= pack.len(),
        pack.subrange(start, start + encode_header_spec(REF_DELTA, size as nat).len())
            == encode_header_spec(REF_DELTA, size as nat),
        inflate_of(
            pack.subrange(start + encode_header_spec(REF_DELTA, size as nat).len() + 22, end),
        ) == Some(instructions),
        lookup.lookup_spec(
            pack.subrange(
                start + encode_header_spec(REF_DELTA, size as nat).len(),
                start + encode_header_spec(REF_DELTA, size as nat).len() + 20,
            ),
        ) == Ok::<Option<(Type, Seq<u8>)>, Error>(Some((ty, base_content))),
    ensures
        rb_spec(pack, start, end, lookup, apply) == Ok::<(u8, Seq<u8>), Error>(
            (tag_of_type(ty), apply.apply_spec(instructions, base_content)),
        ),
{
    lemma_header_round_trip(pack, start, end, REF_DELTA, size as nat);
}

/// A reference delta whose base the lookup cannot produce is
/// corruption, not absence: the archive asserted a dependency it
/// cannot satisfy.
pub proof fn lemma_ref_delta_missing_base<L: ObjectLookup, A: DeltaApply>(
    pack: Seq<u8>,
    start: int,
    end: int,
    size: u64,
    instructions: Seq<u8>,
    lookup: L,
    apply: A,
)
    requires
        0 <= start,
        start + encode_header_spec(REF_DELTA, size as nat).len() + 22 <= end,
        end <= pack.len(),
        pack.subrange(start, start + encode_header_spec(REF_DELTA, size as nat).len())
            == encode_header_spec(REF_DELTA, size as nat),
        inflate_of(
            pack.subrange(start + encode_header_spec(REF_DELTA, size as nat).len() + 22, end),
        ) == Some(instructions),
        lookup.lookup_spec(
            pack.subrange(
                start + encode_header_spec(REF_DELTA, size as nat).len(),
                start + encode_header_spec(REF_DELTA, size as nat).len() + 20,
            ),
        ) == Ok::<Option<(Type, Seq<u8>)>, Error>(None),
    ensures
        rb_spec(pack, start, end, lookup, apply) == Err::<(u8, Seq<u8>), Error>(
            Error::CorruptedPackfile,
        ),
{
    lemma_header_round_trip(pack, start, end, REF_DELTA, size as nat);
}

/// An identifier absent from the index resolves to "no object", never
/// to an error: absence is a normal outcome, distinct from corruption.
pub proof fn lemma_get_missing<L: ObjectLookup, A: DeltaApply>(
    pack: Seq<u8>,
    index: Seq<(Seq<u8>, u64, u64)>,
    id: Seq<u8>,
    lookup: L,
    apply: A,
)
    requires
        forall|i: int| 0 <= i < index.len() ==> index[i].0 != id,
    ensures
        get_spec(pack, index, id, lookup, apply) == Ok::<Option<(Type, Seq<u8>)>, Error>(None),
{
    crate::packindex::lemma_bounds_of_absent(index, id);
}

} // verus!
