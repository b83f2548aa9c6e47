//! The delete bitset: an immutable packed buffer with the count of the
//! documents that it marks as deleted.

use tantivy_common::BitSet;
use vstd::prelude::*;
use crate::bits::{count_marked, is_marked, marked_docs};
use crate::bitset::{bitset_count, bitset_counted, bitset_docs, bitset_reach};
use crate::encode::{encoding, lemma_encoding_count, lemma_encoding_marks, write_delete_bitset};
use crate::merge::{byte_or_zero, lemma_merged_docs, lemma_merged_marks, merged_bytes, merged_len};

verus! {

/// Set of deleted documents.
///
/// The view of a `DeleteBitSet` is its packed buffer. The number of deleted
/// documents is kept beside the buffer; the type's invariant keeps it equal
/// to the number of ones in the buffer, and keeps the number of the buffer's
/// bits within `usize`. A value never changes once it is built.
pub struct DeleteBitSet {
    data: Vec<u8>,
    num_deleted: usize,
}

impl View for DeleteBitSet {
    type V = Seq<u8>;

    closed spec fn view(&self) -> Seq<u8> {
        self.data@
    }
}

impl Clone for DeleteBitSet {
    /// A copy with a buffer of its own and the same contents.
    fn clone(&self) -> (copy: DeleteBitSet)
        ensures
            copy@ == self@,
    {
        proof {
            use_type_invariant(self);
        }
        let data: Vec<u8> = self.data.clone();
        assert(data@ =~= self.data@);
        DeleteBitSet { data, num_deleted: self.num_deleted }
    }
}

impl DeleteBitSet {
    #[verifier::type_invariant]
    spec fn well_formed(&self) -> bool {
        &&& 8 * self.data@.len() <= usize::MAX
        &&& self.num_deleted == marked_docs(self.data@).len()
    }

    /// Whether the buffer marks `doc` as deleted.
    pub open spec fn spec_is_deleted(&self, doc: u32) -> bool {
        is_marked(self@, doc as int)
    }

    /// Whether the buffer leaves `doc` alive: it does not mark it as deleted.
    pub open spec fn spec_is_alive(&self, doc: u32) -> bool {
        !self.spec_is_deleted(doc)
    }

    /// A document is alive exactly if it is not deleted.
    pub proof fn lemma_alive_is_not_deleted(&self, doc: u32)
        ensures
            self.is_alive(doc) == !self.is_deleted(doc),
    {
    }

    /// Builds the delete bitset of the documents of `bitset`, all of which
    /// lie below `max_doc`. The buffer is the encoding of the set, and the
    /// number of deleted documents is the number of the set's elements, as
    /// the set reports it.
    pub fn from_bitset(bitset: &BitSet, max_doc: u32) -> (deleted: DeleteBitSet)
        requires
            max_doc <= bitset_reach(*bitset),
            bitset_counted(*bitset),
            forall|doc: u32| bitset_docs(*bitset).contains(doc) ==> doc < max_doc,
        ensures
            deleted@ == encoding(bitset_docs(*bitset), max_doc),
            forall|doc: u32| deleted.is_deleted(doc) == bitset_docs(*bitset).contains(doc),
            marked_docs(deleted@).len() == bitset_docs(*bitset).len(),
    {
        let mut out: Vec<u8> = vec![];
        write_delete_bitset(bitset, max_doc, &mut out);
        proof {
            assert(out@ =~= encoding(bitset_docs(*bitset), max_doc));
            lemma_encoding_count(bitset_docs(*bitset), max_doc);
            assert forall|doc: u32| is_marked(out@, doc as int) == bitset_docs(*bitset).contains(doc) by {
                lemma_encoding_marks(bitset_docs(*bitset), max_doc, doc as int);
            }
        }
        DeleteBitSet { data: out, num_deleted: bitset.len() }
    }

    /// Builds the delete bitset of the given documents over the documents
    /// below `max_doc`, by way of the encoder and `open`.
    pub fn for_test(docs: &[u32], max_doc: u32) -> (deleted: DeleteBitSet)
        requires
            max_doc + 63 <= u32::MAX,
            forall|i: int| 0 <= i < docs@.len() ==> docs@[i] < max_doc,
        ensures
            deleted@ == encoding(docs@.to_set(), max_doc),
            forall|doc: u32| deleted.is_deleted(doc) == docs@.contains(doc),
            marked_docs(deleted@).len() == docs@.to_set().len(),
    {
        let mut bitset = BitSet::with_max_value(max_doc);
        for i in 0..docs.len()
            invariant
                forall|i: int| 0 <= i < docs@.len() ==> docs@[i] < max_doc,
                bitset_reach(bitset) >= max_doc,
                bitset_docs(bitset) == docs@.take(i as int).to_set(),
                bitset_count(bitset) <= i,
        {
            bitset.insert(docs[i]);
            proof {
                assert(docs@.take(i + 1) =~= docs@.take(i as int).push(docs@[i as int]));
                docs@.take(i as int).lemma_push_to_set_commute(docs@[i as int]);
            }
        }
        proof {
            assert(docs@.take(docs@.len() as int) =~= docs@);
        }
        let mut out: Vec<u8> = vec![];
        write_delete_bitset(&bitset, max_doc, &mut out);
        proof {
            assert(out@ =~= encoding(docs@.to_set(), max_doc));
            lemma_encoding_count(docs@.to_set(), max_doc);
            assert forall|doc: u32| is_marked(out@, doc as int) == docs@.contains(doc) by {
                lemma_encoding_marks(docs@.to_set(), max_doc, doc as int);
            }
        }
        DeleteBitSet::open(out)
    }

    /// Takes a packed buffer as it was stored and counts its deleted
    /// documents.
    pub fn open(bytes: Vec<u8>) -> (deleted: DeleteBitSet)
        requires
            8 * bytes@.len() <= usize::MAX,
        ensures
            deleted@ == bytes@,
    {
        let num_deleted: usize = count_marked(bytes.as_slice());
        DeleteBitSet { data: bytes, num_deleted }
    }

    /// Returns true iff the document has been marked as deleted.
    #[verifier::when_used_as_spec(spec_is_deleted)]
    pub fn is_deleted(&self, doc: u32) -> (deleted: bool)
        requires
            doc / 8 < self@.len(),
        ensures
            deleted == self.spec_is_deleted(doc),
    {
        let byte_offset: u32 = doc / 8u32;
        let b: u8 = self.data[byte_offset as usize];
        let shift: u8 = (doc & 7u32) as u8;
        proof {
            assert(doc & 7u32 == doc % 8u32) by (bit_vector);
            assert((b & (1u8 << shift) != 0) == ((b >> shift) & 1u8 == 1u8)) by (bit_vector)
                requires
                    shift < 8,
            ;
        }
        b & (1u8 << shift) != 0
    }

    /// Returns true iff the document is still "alive". In other words, if it
    /// has not been deleted.
    #[verifier::when_used_as_spec(spec_is_alive)]
    pub fn is_alive(&self, doc: u32) -> (alive: bool)
        requires
            doc / 8 < self@.len(),
        ensures
            alive == self.spec_is_alive(doc),
            alive == !self.is_deleted(doc),
    {
        !self.is_deleted(doc)
    }

    /// The number of deleted docs: every one in the buffer counts, whatever
    /// document it stands for.
    pub fn num_deleted(&self) -> (count: usize)
        ensures
            count == marked_docs(self@).len(),
    {
        proof {
            use_type_invariant(self);
        }
        self.num_deleted
    }

    /// The number of deleted docs: the length of the set, not of its buffer.
    pub fn len(&self) -> (count: usize)
        ensures
            count == marked_docs(self@).len(),
    {
        self.num_deleted()
    }

    /// Summarize total space usage of this bitset: the length of its buffer
    /// in bytes.
    pub fn space_usage(&self) -> (bytes: usize)
        ensures
            bytes == self@.len(),
    {
        self.data.len()
    }
}

/// Merges two `DeleteBitSet` into a new one, in which a document is deleted
/// exactly if it is deleted in one of the two. The new buffer is as long as
/// the longer one; the shorter set deletes nothing beyond its own end.
pub fn merge_delete_bitset(left: &DeleteBitSet, right: &DeleteBitSet) -> (merged: DeleteBitSet)
    ensures
        merged@ == merged_bytes(left@, right@),
        forall|doc: u32| merged.is_deleted(doc) == (left.is_deleted(doc) || right.is_deleted(doc)),
        marked_docs(merged@) == marked_docs(left@) + marked_docs(right@),
{
    proof {
        use_type_invariant(left);
        use_type_invariant(right);
    }
    let left_data: &[u8] = left.data.as_slice();
    let right_data: &[u8] = right.data.as_slice();

    let longest: usize = if left_data.len() >= right_data.len() {
        left_data.len()
    } else {
        right_data.len()
    };
    let mut merged: Vec<u8> = vec![];
    merged.resize(longest, 0);

    for i in 0..left_data.len()
        invariant
            merged@.len() == longest,
            left_data@.len() <= longest,
            forall|j: int| 0 <= j < i ==> merged@[j] == left_data@[j],
            forall|j: int| i <= j < longest ==> merged@[j] == 0,
    {
        merged[i] = left_data[i];
    }

    for i in 0..right_data.len()
        invariant
            merged@.len() == longest,
            right_data@.len() <= longest,
            left_data@ == left@,
            right_data@ == right@,
            longest == merged_len(left@, right@),
            forall|j: int| 0 <= j < i ==> merged@[j] == merged_bytes(left@, right@)[j],
            forall|j: int| i <= j < longest ==> merged@[j] == byte_or_zero(left@, j),
    {
        merged[i] |= right_data[i];
    }

    proof {
        assert forall|j: int| right@.len() <= j < longest implies merged@[j] == merged_bytes(left@, right@)[j] by {
            let kept = byte_or_zero(left@, j);
            assert(kept | 0u8 == kept) by (bit_vector);
        }
        assert(merged@ =~= merged_bytes(left@, right@));
        lemma_merged_docs(left@, right@);
        assert forall|doc: u32| is_marked(merged@, doc as int) == (is_marked(left@, doc as int) || is_marked(right@, doc as int)) by {
            lemma_merged_marks(left@, right@, doc as int);
        }
    }
    let num_deleted: usize = count_marked(merged.as_slice());

    DeleteBitSet { data: merged, num_deleted }
}

} // verus!
