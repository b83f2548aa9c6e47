//! The bit layout of a packed buffer and what it means to count its bits.
//!
//! Document `d` lives in byte `d / 8`, at bit `d % 8` counted from the least
//! significant bit. Everything else in the crate is stated over the
//! functions of this module.

use vstd::prelude::*;
use vstd::relations::injective_on;
use vstd::set_lib::{lemma_int_range, lemma_len_subset, lemma_map_size, lemma_set_disjoint_lens, set_int_range};

verus! {

/// Whether bit `k` of `byte` is one, bit 0 being the least significant.
pub open spec fn has_bit(byte: u8, k: u8) -> bool {
    (byte >> k) & 1u8 == 1u8
}

/// The positions in `0..8` at which `byte` has a one.
pub open spec fn bits_of(byte: u8) -> Set<int> {
    Set::new(|k: int| 0 <= k < 8 && has_bit(byte, k as u8))
}

/// The number of ones in the binary representation of `byte`.
pub open spec fn ones_in_byte(byte: u8) -> nat {
    bits_of(byte).len()
}

/// Whether the buffer `data` marks document `doc`: the document's byte lies
/// within the buffer and its bit there is one.
pub open spec fn is_marked(data: Seq<u8>, doc: int) -> bool {
    0 <= doc < 8 * data.len() && has_bit(data[doc / 8], (doc % 8) as u8)
}

/// The documents that the buffer `data` marks.
pub open spec fn marked_docs(data: Seq<u8>) -> Set<int> {
    Set::new(|doc: int| is_marked(data, doc))
}

/// `u8::count_ones` returns the number of ones in the binary representation
/// of its argument.
pub assume_specification[ u8::count_ones ](byte: u8) -> (ones: u32)
    ensures
        ones == ones_in_byte(byte),
;

/// Two bytes with the same bits are the same byte.
pub proof fn lemma_same_bits(x: u8, y: u8)
    requires
        forall|k: u8| k < 8 ==> has_bit(x, k) == has_bit(y, k),
    ensures
        x == y,
{
    assert(has_bit(x, 0) == has_bit(y, 0));
    assert(has_bit(x, 1) == has_bit(y, 1));
    assert(has_bit(x, 2) == has_bit(y, 2));
    assert(has_bit(x, 3) == has_bit(y, 3));
    assert(has_bit(x, 4) == has_bit(y, 4));
    assert(has_bit(x, 5) == has_bit(y, 5));
    assert(has_bit(x, 6) == has_bit(y, 6));
    assert(has_bit(x, 7) == has_bit(y, 7));
    assert(x == y) by (bit_vector)
        requires
            ((x >> 0u8) & 1u8 == 1u8) == ((y >> 0u8) & 1u8 == 1u8),
            ((x >> 1u8) & 1u8 == 1u8) == ((y >> 1u8) & 1u8 == 1u8),
            ((x >> 2u8) & 1u8 == 1u8) == ((y >> 2u8) & 1u8 == 1u8),
            ((x >> 3u8) & 1u8 == 1u8) == ((y >> 3u8) & 1u8 == 1u8),
            ((x >> 4u8) & 1u8 == 1u8) == ((y >> 4u8) & 1u8 == 1u8),
            ((x >> 5u8) & 1u8 == 1u8) == ((y >> 5u8) & 1u8 == 1u8),
            ((x >> 6u8) & 1u8 == 1u8) == ((y >> 6u8) & 1u8 == 1u8),
            ((x >> 7u8) & 1u8 == 1u8) == ((y >> 7u8) & 1u8 == 1u8),
    ;
}

/// The zero byte has no ones.
pub proof fn lemma_zero_has_no_bit(k: u8)
    requires
        k < 8,
    ensures
        !has_bit(0, k),
{
    assert((0u8 >> k) & 1u8 != 1u8) by (bit_vector)
        requires
            k < 8,
    ;
}

/// Setting bit `k` of a byte gives that bit and leaves the others.
pub proof fn lemma_set_bit(byte: u8, k: u8, j: u8)
    requires
        k < 8,
        j < 8,
    ensures
        has_bit(byte | (1u8 << k), j) == (has_bit(byte, j) || j == k),
{
    assert((((byte | (1u8 << k)) >> j) & 1u8 == 1u8) == (((byte >> j) & 1u8 == 1u8) || j == k)) by (bit_vector)
        requires
            k < 8,
            j < 8,
    ;
}

/// The ones of `x | y` are the ones of `x` and those of `y`.
pub proof fn lemma_or_bit(x: u8, y: u8, k: u8)
    requires
        k < 8,
    ensures
        has_bit(x | y, k) == (has_bit(x, k) || has_bit(y, k)),
{
    assert((((x | y) >> k) & 1u8 == 1u8) == (((x >> k) & 1u8 == 1u8) || ((y >> k) & 1u8 == 1u8))) by (bit_vector)
        requires
            k < 8,
    ;
}

/// A byte has at most eight ones.
pub proof fn lemma_ones_in_byte_bounded(byte: u8)
    ensures
        bits_of(byte).finite(),
        ones_in_byte(byte) <= 8,
{
    let positions = set_int_range(0, 8);
    lemma_int_range(0, 8);
    assert(bits_of(byte).subset_of(positions));
    lemma_len_subset(bits_of(byte), positions);
}

/// A buffer marks finitely many documents, at most eight for each byte.
pub proof fn lemma_marked_docs_bounded(data: Seq<u8>)
    ensures
        marked_docs(data).finite(),
        marked_docs(data).len() <= 8 * data.len(),
{
    let bound = 8 * data.len() as int;
    let positions = set_int_range(0, bound);
    lemma_int_range(0, bound);
    assert(marked_docs(data).subset_of(positions));
    lemma_len_subset(marked_docs(data), positions);
}

/// A buffer without bytes marks no document.
pub proof fn lemma_marked_docs_empty()
    ensures
        marked_docs(Seq::<u8>::empty()) == Set::<int>::empty(),
        marked_docs(Seq::<u8>::empty()).len() == 0,
{
    assert(marked_docs(Seq::<u8>::empty()) =~= Set::<int>::empty());
}

/// Appending a byte to a buffer adds the byte's ones to the count of marked
/// documents.
pub proof fn lemma_marked_docs_push(data: Seq<u8>, byte: u8)
    ensures
        marked_docs(data.push(byte)).len() == marked_docs(data).len() + ones_in_byte(byte),
{
    let base = 8 * data.len() as int;
    let longer = data.push(byte);
    let shift = |k: int| base + k;
    let shifted = bits_of(byte).map(shift);
    lemma_ones_in_byte_bounded(byte);
    lemma_marked_docs_bounded(data);
    assert(injective_on(shift, bits_of(byte)));
    lemma_map_size(bits_of(byte), shifted, shift);
    assert forall|doc: int| shifted.contains(doc) <==> (base <= doc < base + 8 && has_bit(byte, (doc - base) as u8)) by {
        if base <= doc < base + 8 && has_bit(byte, (doc - base) as u8) {
            assert(bits_of(byte).contains(doc - base));
            assert(shift(doc - base) == doc);
        }
    }
    assert forall|doc: int| marked_docs(longer).contains(doc) <==> (marked_docs(data).contains(doc) || shifted.contains(doc)) by {
        if 0 <= doc < base {
            assert(longer[doc / 8] == data[doc / 8]);
        } else if base <= doc < base + 8 {
            assert(doc / 8 == data.len());
            assert(doc % 8 == doc - base);
            assert(longer[doc / 8] == byte);
        }
    }
    assert(marked_docs(longer) =~= marked_docs(data) + shifted);
    assert(marked_docs(data).disjoint(shifted));
    lemma_set_disjoint_lens(marked_docs(data), shifted);
}

/// Counts the documents that `data` marks, by adding up the ones of every
/// byte.
pub fn count_marked(data: &[u8]) -> (count: usize)
    requires
        8 * data@.len() <= usize::MAX,
    ensures
        count == marked_docs(data@).len(),
{
    let mut count: usize = 0;
    proof {
        assert(data@.take(0) =~= Seq::<u8>::empty());
        lemma_marked_docs_empty();
    }
    for i in 0..data.len()
        invariant
            8 * data@.len() <= usize::MAX,
            count == marked_docs(data@.take(i as int)).len(),
            count <= 8 * i,
    {
        let ones: u32 = data[i].count_ones();
        proof {
            lemma_ones_in_byte_bounded(data@[i as int]);
            lemma_marked_docs_push(data@.take(i as int), data@[i as int]);
            assert(data@.take(i + 1) =~= data@.take(i as int).push(data@[i as int]));
        }
        count = count + ones as usize;
    }
    proof {
        assert(data@.take(data@.len() as int) =~= data@);
    }
    count
}

} // verus!
