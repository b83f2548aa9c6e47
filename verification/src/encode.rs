//! The encoder: from a set of deleted documents to the packed buffer.

use tantivy_common::BitSet;
use vstd::prelude::*;
use vstd::relations::injective_on;
use vstd::set_lib::{lemma_map_size, lemma_set_subset_finite, FiniteFull};
use crate::bits::{has_bit, is_marked, lemma_same_bits, lemma_set_bit, lemma_zero_has_no_bit, marked_docs};
use crate::bitset::{bitset_docs, bitset_reach};

verus! {

/// The byte that has a one at exactly the positions `k` in `0..8` for which
/// `on(k)` holds.
pub open spec fn byte_with(on: spec_fn(int) -> bool) -> u8 {
    ((if on(0) { 1int } else { 0 })
        + (if on(1) { 2int } else { 0 })
        + (if on(2) { 4int } else { 0 })
        + (if on(3) { 8int } else { 0 })
        + (if on(4) { 16int } else { 0 })
        + (if on(5) { 32int } else { 0 })
        + (if on(6) { 64int } else { 0 })
        + (if on(7) { 128int } else { 0 })) as u8
}

proof fn lemma_byte_from_flags(b0: bool, b1: bool, b2: bool, b3: bool, b4: bool, b5: bool, b6: bool, b7: bool, x: u8)
    by (bit_vector)
    requires
        x == (if b0 { 1u8 } else { 0u8 }) + (if b1 { 2u8 } else { 0u8 }) + (if b2 { 4u8 } else { 0u8 })
            + (if b3 { 8u8 } else { 0u8 }) + (if b4 { 16u8 } else { 0u8 }) + (if b5 { 32u8 } else { 0u8 })
            + (if b6 { 64u8 } else { 0u8 }) + (if b7 { 128u8 } else { 0u8 }),
    ensures
        b0 == ((x >> 0u8) & 1u8 == 1u8),
        b1 == ((x >> 1u8) & 1u8 == 1u8),
        b2 == ((x >> 2u8) & 1u8 == 1u8),
        b3 == ((x >> 3u8) & 1u8 == 1u8),
        b4 == ((x >> 4u8) & 1u8 == 1u8),
        b5 == ((x >> 5u8) & 1u8 == 1u8),
        b6 == ((x >> 6u8) & 1u8 == 1u8),
        b7 == ((x >> 7u8) & 1u8 == 1u8),
{
}

/// The bits of `byte_with(on)` are what `on` says.
pub proof fn lemma_byte_with(on: spec_fn(int) -> bool, k: int)
    requires
        0 <= k < 8,
    ensures
        has_bit(byte_with(on), k as u8) == on(k),
{
    lemma_byte_from_flags(on(0), on(1), on(2), on(3), on(4), on(5), on(6), on(7), byte_with(on));
}

/// The length of the buffer for the documents below `max_doc`: one byte for
/// every eight documents, rounded up.
pub open spec fn byte_count(max_doc: u32) -> nat {
    ((max_doc + 7) / 8) as nat
}

/// Byte `i` of the encoding: its bit `k` stands for document `8 * i + k`, and
/// is one where that document lies below `max_doc` and in `docs`.
pub open spec fn encoded_byte(docs: Set<u32>, max_doc: u32, i: int) -> u8 {
    byte_with(|k: int| 8 * i + k < max_doc && docs.contains((8 * i + k) as u32))
}

/// The packed buffer that stands for the documents of `docs` below
/// `max_doc`.
pub open spec fn encoding(docs: Set<u32>, max_doc: u32) -> Seq<u8> {
    Seq::new(byte_count(max_doc), |i: int| encoded_byte(docs, max_doc, i))
}

/// Decoding what was encoded gives the set back: the encoding of `docs`
/// marks a document exactly if it lies below `max_doc` and in `docs`.
pub proof fn lemma_encoding_marks(docs: Set<u32>, max_doc: u32, doc: int)
    ensures
        is_marked(encoding(docs, max_doc), doc) == (0 <= doc < max_doc && docs.contains(doc as u32)),
{
    if 0 <= doc < 8 * byte_count(max_doc) {
        let i = doc / 8;
        let k = doc % 8;
        lemma_byte_with(|k: int| 8 * i + k < max_doc && docs.contains((8 * i + k) as u32), k);
    }
}

/// The encoding of a set whose documents all lie below `max_doc` marks as
/// many documents as the set has.
pub proof fn lemma_encoding_count(docs: Set<u32>, max_doc: u32)
    requires
        forall|doc: u32| docs.contains(doc) ==> doc < max_doc,
    ensures
        docs.finite(),
        marked_docs(encoding(docs, max_doc)).len() == docs.len(),
{
    let widen = |doc: u32| doc as int;
    u32::full_properties();
    lemma_set_subset_finite(Set::<u32>::full(), docs);
    assert(injective_on(widen, docs));
    assert forall|doc: int| docs.map(widen).contains(doc) <==> marked_docs(encoding(docs, max_doc)).contains(doc) by {
        lemma_encoding_marks(docs, max_doc, doc);
        if 0 <= doc < max_doc && docs.contains(doc as u32) {
            assert(widen(doc as u32) == doc);
        }
    }
    assert(docs.map(widen) =~= marked_docs(encoding(docs, max_doc)));
    lemma_map_size(docs, marked_docs(encoding(docs, max_doc)), widen);
}

/// Tells whether `write_delete_bitset` can read every document below
/// `max_doc` from `delete_bitset`.
pub fn within_reach(delete_bitset: &BitSet, max_doc: u32) -> (within: bool)
    ensures
        within == (max_doc <= bitset_reach(*delete_bitset)),
{
    let max_value: u32 = delete_bitset.max_value();
    if max_value > u32::MAX - 63 {
        max_doc == 0
    } else {
        max_doc <= 64 * ((max_value + 63) / 64)
    }
}

/// Appends to `writer` the packed buffer for the documents of
/// `delete_bitset` below `max_doc`: `ceil(max_doc / 8)` bytes, in which bit
/// `doc % 8` of byte `doc / 8` is one exactly where `doc` is in the set.
///
/// The set is asked about every document below `max_doc`, so its reach must
/// cover them.
pub fn write_delete_bitset(delete_bitset: &BitSet, max_doc: u32, writer: &mut Vec<u8>)
    requires
        max_doc <= bitset_reach(*delete_bitset),
    ensures
        final(writer)@ == old(writer)@ + encoding(bitset_docs(*delete_bitset), max_doc),
{
    let ghost docs = bitset_docs(*delete_bitset);
    let ghost target = encoding(docs, max_doc);
    let mut byte: u8 = 0;
    let mut shift: u8 = 0;
    proof {
        assert(writer@ =~= old(writer)@ + target.take(0));
        assert forall|k: u8| k < 8 implies !has_bit(0u8, k) by {
            lemma_zero_has_no_bit(k);
        }
    }
    for doc in 0..max_doc
        invariant
            docs == bitset_docs(*delete_bitset),
            target == encoding(docs, max_doc),
            max_doc <= bitset_reach(*delete_bitset),
            shift == doc % 8,
            writer@ == old(writer)@ + target.take(doc as int / 8),
            forall|k: u8| k < 8 ==> has_bit(byte, k) == (k < shift && docs.contains((doc - shift + k) as u32)),
    {
        let ghost before = byte;
        if delete_bitset.contains(doc) {
            byte |= 1 << shift;
        }
        proof {
            assert forall|k: u8| k < 8 implies has_bit(byte, k) == (k <= shift && docs.contains((doc - shift + k) as u32)) by {
                lemma_set_bit(before, shift, k);
            }
        }
        if shift == 7 {
            proof {
                let i = doc as int / 8;
                assert forall|k: u8| k < 8 implies has_bit(byte, k) == has_bit(target[i], k) by {
                    lemma_byte_with(|k: int| 8 * i + k < max_doc && docs.contains((8 * i + k) as u32), k as int);
                }
                lemma_same_bits(byte, target[i]);
                assert(target.take(i).push(byte) =~= target.take(i + 1));
                assert(old(writer)@ + target.take(i + 1) =~= (old(writer)@ + target.take(i)).push(byte));
            }
            writer.push(byte);
            shift = 0;
            byte = 0;
            proof {
                assert forall|k: u8| k < 8 implies !has_bit(0u8, k) by {
                    lemma_zero_has_no_bit(k);
                }
            }
        } else {
            shift += 1;
        }
    }
    if max_doc % 8 > 0 {
        proof {
            let i = max_doc as int / 8;
            assert forall|k: u8| k < 8 implies has_bit(byte, k) == has_bit(target[i], k) by {
                lemma_byte_with(|k: int| 8 * i + k < max_doc && docs.contains((8 * i + k) as u32), k as int);
            }
            lemma_same_bits(byte, target[i]);
            assert(target.take(i).push(byte) =~= target);
            assert(old(writer)@ + target =~= (old(writer)@ + target.take(i)).push(byte));
        }
        writer.push(byte);
    } else {
        proof {
            assert(target.take(max_doc as int / 8) =~= target);
        }
    }
}

} // verus!
