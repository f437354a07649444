use vstd::prelude::*;

use crate::id::Id;

verus! {

/// One index entry: an identifier and the half-open byte range of its
/// record inside the archive.
pub struct Entry {
    pub id: Id,
    pub start: u64,
    pub end: u64,
}

/// An index over one archive: identifier to byte range. It is built by
/// an external collaborator and read here; this crate never mutates it.
pub struct Index {
    entries: Vec<Entry>,
}

/// The byte range that a sequence of entries assigns to an identifier:
/// the range of the first entry carrying it, or `None` when no entry
/// does.
pub open spec fn bounds_of(entries: Seq<(Seq<u8>, u64, u64)>, id: Seq<u8>) -> Option<(u64, u64)>
    decreases entries.len(),
{
    if entries.len() == 0 {
        None
    } else if entries[0].0 == id {
        Some((entries[0].1, entries[0].2))
    } else {
        bounds_of(entries.skip(1), id)
    }
}

impl View for Index {
    type V = Seq<(Seq<u8>, u64, u64)>;

    closed spec fn view(&self) -> Seq<(Seq<u8>, u64, u64)> {
        self.entries@.map(|i: int, e: Entry| (e.id@, e.start, e.end))
    }
}

impl Index {
    /// Builds an index from its entries, kept in the given order.
    pub fn new(entries: Vec<Entry>) -> (r: Index)
        ensures
            r@.len() == entries@.len(),
            forall|i: int|
                0 <= i < entries@.len() ==> r@[i] == (
                    entries@[i].id@,
                    entries@[i].start,
                    entries@[i].end,
                ),
    {
        Index { entries }
    }

    /// The byte range recorded for an identifier, if the index holds one.
    pub fn get_bounds(&self, id: &Id) -> (r: Option<(u64, u64)>)
        ensures
            r == bounds_of(self@, id@),
    {
        let mut i: usize = 0;
        proof {
            assert(self@.skip(0) =~= self@);
        }
        while i < self.entries.len()
            invariant
                i <= self.entries@.len(),
                self@.len() == self.entries@.len(),
                forall|j: int|
                    0 <= j < self.entries@.len() ==> self@[j] == (
                        self.entries@[j].id@,
                        self.entries@[j].start,
                        self.entries@[j].end,
                    ),
                bounds_of(self@, id@) == bounds_of(self@.skip(i as int), id@),
            decreases self.entries@.len() - i,
        {
            let e = &self.entries[i];
            if e.id.same_as(id) {
                proof {
                    assert(self@.skip(i as int)[0] == self@[i as int]);
                }
                return Some((e.start, e.end));
            }
            proof {
                assert(self@.skip(i as int)[0] == self@[i as int]);
                assert(self@.skip(i as int).skip(1) =~= self@.skip(i as int + 1));
            }
            i = i + 1;
        }
        proof {
            assert(self@.skip(i as int).len() == 0);
        }
        None
    }
}

/// An identifier that no entry carries is assigned no byte range.
pub proof fn lemma_bounds_of_absent(entries: Seq<(Seq<u8>, u64, u64)>, id: Seq<u8>)
    requires
        forall|i: int| 0 <= i < entries.len() ==> entries[i].0 != id,
    ensures
        bounds_of(entries, id) is None,
    decreases entries.len(),
{
    if entries.len() > 0 {
        assert(entries.skip(1).len() == entries.len() - 1);
        assert(forall|i: int|
            0 <= i < entries.skip(1).len() ==> entries.skip(1)[i] == entries[i + 1]);
        lemma_bounds_of_absent(entries.skip(1), id);
    }
}

} // verus!
