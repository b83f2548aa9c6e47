//! What merging two packed buffers means, and the laws of the merge.

use vstd::prelude::*;
use crate::bits::{has_bit, is_marked, lemma_or_bit, marked_docs};

verus! {

/// Byte `i` of `data`, or zero where the buffer has no such byte: a buffer
/// deletes nothing beyond its end.
pub open spec fn byte_or_zero(data: Seq<u8>, i: int) -> u8 {
    if 0 <= i < data.len() {
        data[i]
    } else {
        0u8
    }
}

/// The length of the longer of two buffers.
pub open spec fn merged_len(left: Seq<u8>, right: Seq<u8>) -> nat {
    if left.len() >= right.len() {
        left.len()
    } else {
        right.len()
    }
}

/// The merge of two buffers: as long as the longer one, each byte the
/// bitwise or of the two operands' bytes, the shorter operand extended with
/// zeros.
pub open spec fn merged_bytes(left: Seq<u8>, right: Seq<u8>) -> Seq<u8> {
    Seq::new(merged_len(left, right), |i: int| byte_or_zero(left, i) | byte_or_zero(right, i))
}

proof fn lemma_or_facts(x: u8, y: u8, z: u8)
    by (bit_vector)
    ensures
        x | y == y | x,
        (x | y) | z == x | (y | z),
        0u8 | x == x,
        x | 0u8 == x,
{
}

/// The merge marks a document exactly if one of the operands marks it.
pub proof fn lemma_merged_marks(left: Seq<u8>, right: Seq<u8>, doc: int)
    ensures
        is_marked(merged_bytes(left, right), doc) == (is_marked(left, doc) || is_marked(right, doc)),
{
    if 0 <= doc < 8 * merged_len(left, right) {
        let i = doc / 8;
        let k = (doc % 8) as u8;
        lemma_or_bit(byte_or_zero(left, i), byte_or_zero(right, i), k);
        assert(!has_bit(0u8, k)) by {
            crate::bits::lemma_zero_has_no_bit(k);
        }
    }
}

/// The documents that the merge marks are the union of those that the
/// operands mark.
pub proof fn lemma_merged_docs(left: Seq<u8>, right: Seq<u8>)
    ensures
        marked_docs(merged_bytes(left, right)) == marked_docs(left) + marked_docs(right),
{
    assert forall|doc: int| marked_docs(merged_bytes(left, right)).contains(doc) == (marked_docs(left) + marked_docs(right)).contains(doc) by {
        lemma_merged_marks(left, right, doc);
    }
    assert(marked_docs(merged_bytes(left, right)) =~= marked_docs(left) + marked_docs(right));
}

/// Merging is commutative: the operands' order changes neither the merged
/// buffer nor, with it, the answer for any document.
pub proof fn lemma_merge_commutes(left: Seq<u8>, right: Seq<u8>)
    ensures
        merged_bytes(left, right) == merged_bytes(right, left),
        forall|doc: int| is_marked(merged_bytes(left, right), doc) == is_marked(merged_bytes(right, left), doc),
{
    assert forall|i: int| 0 <= i < merged_len(left, right) implies merged_bytes(left, right)[i] == merged_bytes(right, left)[i] by {
        lemma_or_facts(byte_or_zero(left, i), byte_or_zero(right, i), 0);
    }
    assert(merged_bytes(left, right) =~= merged_bytes(right, left));
}

/// Merging is associative.
pub proof fn lemma_merge_associates(first: Seq<u8>, second: Seq<u8>, third: Seq<u8>)
    ensures
        merged_bytes(merged_bytes(first, second), third) == merged_bytes(first, merged_bytes(second, third)),
{
    let left_first = merged_bytes(merged_bytes(first, second), third);
    let right_first = merged_bytes(first, merged_bytes(second, third));
    assert forall|i: int| 0 <= i < left_first.len() implies left_first[i] == right_first[i] by {
        lemma_or_facts(byte_or_zero(first, i), byte_or_zero(second, i), byte_or_zero(third, i));
        lemma_or_facts(0u8, 0u8, 0u8);
    }
    assert(left_first =~= right_first);
}

/// Merging a buffer with a longer one, in either order, gives a buffer as
/// long as the longer one, which from the end of the shorter one on has the
/// longer one's bytes, and so answers there for every document as the longer
/// one does.
pub proof fn lemma_merge_zero_extends(shorter: Seq<u8>, longer: Seq<u8>)
    requires
        shorter.len() < longer.len(),
    ensures
        merged_bytes(shorter, longer).len() == longer.len(),
        merged_bytes(longer, shorter).len() == longer.len(),
        forall|i: int|
            shorter.len() <= i < longer.len() ==> merged_bytes(shorter, longer)[i] == longer[i]
                && merged_bytes(longer, shorter)[i] == longer[i],
        forall|doc: int|
            doc / 8 >= shorter.len() ==> is_marked(merged_bytes(shorter, longer), doc) == is_marked(longer, doc)
                && is_marked(merged_bytes(longer, shorter), doc) == is_marked(longer, doc),
{
    lemma_merge_commutes(shorter, longer);
    assert forall|i: int| shorter.len() <= i < longer.len() implies merged_bytes(shorter, longer)[i] == longer[i] by {
        lemma_or_facts(longer[i], 0u8, 0u8);
    }
}

} // verus!
