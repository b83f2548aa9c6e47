use delete_bitset::delete::{merge_delete_bitset, DeleteBitSet};

#[test]
fn test_delete_bitset_empty() {
    let delete_bitset = DeleteBitSet::for_test(&[], 10);
    for doc in 0..10 {
        assert_eq!(delete_bitset.is_deleted(doc), !delete_bitset.is_alive(doc));
    }
    assert_eq!(delete_bitset.len(), 0);
}

#[test]
fn test_delete_bitset() {
    let delete_bitset = DeleteBitSet::for_test(&[1, 9], 10);
    assert!(delete_bitset.is_alive(0));
    assert!(delete_bitset.is_deleted(1));
    assert!(delete_bitset.is_alive(2));
    assert!(delete_bitset.is_alive(3));
    assert!(delete_bitset.is_alive(4));
    assert!(delete_bitset.is_alive(5));
    assert!(delete_bitset.is_alive(6));
    assert!(delete_bitset.is_alive(6));
    assert!(delete_bitset.is_alive(7));
    assert!(delete_bitset.is_alive(8));
    assert!(delete_bitset.is_deleted(9));
    for doc in 0..10 {
        assert_eq!(delete_bitset.is_deleted(doc), !delete_bitset.is_alive(doc));
    }
    assert_eq!(delete_bitset.len(), 2);
}

#[test]
fn test_delete_bitset_merge() {
    let delete_bitset1 = DeleteBitSet::for_test(&[1, 9], 10);
    let delete_bitset2 = DeleteBitSet::for_test(&[1, 5, 9, 14], 15);
    let delete_bitset = merge_delete_bitset(&delete_bitset1, &delete_bitset2);
    assert!(delete_bitset.is_alive(0));
    assert!(delete_bitset.is_deleted(1));
    assert!(delete_bitset.is_alive(2));
    assert!(delete_bitset.is_alive(3));
    assert!(delete_bitset.is_alive(4));
    assert!(delete_bitset.is_deleted(5));
    assert!(delete_bitset.is_alive(6));
    assert!(delete_bitset.is_alive(6));
    assert!(delete_bitset.is_alive(7));
    assert!(delete_bitset.is_alive(8));
    assert!(delete_bitset.is_deleted(9));
    assert!(delete_bitset.is_alive(10));
    assert!(delete_bitset.is_alive(11));
    assert!(delete_bitset.is_alive(12));
    assert!(delete_bitset.is_alive(13));
    assert!(delete_bitset.is_deleted(14));
    assert!(delete_bitset.is_alive(15));
    for doc in 0..15 {
        assert_eq!(delete_bitset.is_deleted(doc), !delete_bitset.is_alive(doc));
    }
}

#[test]
fn empty_set_has_all_documents_alive() {
    let delete_bitset = DeleteBitSet::for_test(&[], 10);
    for doc in 0..10 {
        assert!(delete_bitset.is_alive(doc));
        assert!(!delete_bitset.is_deleted(doc));
    }
    assert_eq!(delete_bitset.num_deleted(), 0);
    assert_eq!(delete_bitset.space_usage(), 2);
}

#[test]
fn num_deleted_and_len_agree() {
    let delete_bitset = DeleteBitSet::for_test(&[0, 3, 4, 17, 63, 64], 70);
    assert_eq!(delete_bitset.num_deleted(), 6);
    assert_eq!(delete_bitset.len(), 6);
    assert_eq!(delete_bitset.space_usage(), 9);
}

#[test]
fn repeated_documents_count_once() {
    let delete_bitset = DeleteBitSet::for_test(&[3, 3, 5, 3, 5], 8);
    assert_eq!(delete_bitset.num_deleted(), 2);
    assert!(delete_bitset.is_deleted(3));
    assert!(delete_bitset.is_deleted(5));
    assert!(delete_bitset.is_alive(4));
}

#[test]
fn queries_give_back_the_deleted_set() {
    let deleted: Vec<u32> = vec![0, 7, 8, 15, 16, 31, 32, 63, 64, 99];
    let delete_bitset = DeleteBitSet::for_test(&deleted, 100);
    for doc in 0..100u32 {
        assert_eq!(delete_bitset.is_deleted(doc), deleted.contains(&doc));
        assert_eq!(delete_bitset.is_alive(doc), !deleted.contains(&doc));
    }
    assert_eq!(delete_bitset.num_deleted(), deleted.len());
}

#[test]
fn space_usage_is_the_rounded_up_byte_count() {
    assert_eq!(DeleteBitSet::for_test(&[], 0).space_usage(), 0);
    assert_eq!(DeleteBitSet::for_test(&[], 1).space_usage(), 1);
    assert_eq!(DeleteBitSet::for_test(&[], 7).space_usage(), 1);
    assert_eq!(DeleteBitSet::for_test(&[], 8).space_usage(), 1);
    assert_eq!(DeleteBitSet::for_test(&[], 9).space_usage(), 2);
    assert_eq!(DeleteBitSet::for_test(&[], 16).space_usage(), 2);
    assert_eq!(DeleteBitSet::for_test(&[], 17).space_usage(), 3);
    assert_eq!(DeleteBitSet::for_test(&[], 1000).space_usage(), 125);
}

#[test]
fn open_reads_bits_from_the_least_significant() {
    let delete_bitset = DeleteBitSet::open(vec![0b0000_0010, 0b0000_0010]);
    for doc in 0..16u32 {
        assert_eq!(delete_bitset.is_deleted(doc), doc == 1 || doc == 9);
    }
    assert_eq!(delete_bitset.num_deleted(), 2);
    assert_eq!(delete_bitset.space_usage(), 2);

    let delete_bitset = DeleteBitSet::open(vec![0b1000_0001]);
    assert!(delete_bitset.is_deleted(0));
    assert!(delete_bitset.is_deleted(7));
    for doc in 1..7u32 {
        assert!(delete_bitset.is_alive(doc));
    }
}

#[test]
fn open_counts_every_bit_of_the_buffer() {
    assert_eq!(DeleteBitSet::open(vec![]).num_deleted(), 0);
    assert_eq!(DeleteBitSet::open(vec![0xff]).num_deleted(), 8);
    assert_eq!(DeleteBitSet::open(vec![0xff, 0xff, 0x01]).num_deleted(), 17);
    assert_eq!(DeleteBitSet::open(vec![0b1011_0000, 0, 0b0100_0000]).num_deleted(), 4);
    assert_eq!(DeleteBitSet::open(vec![0; 100]).num_deleted(), 0);
    assert_eq!(DeleteBitSet::open(vec![0xff; 100]).num_deleted(), 800);
}

#[test]
fn clone_keeps_buffer_and_count() {
    let delete_bitset = DeleteBitSet::for_test(&[2, 11], 12);
    let copy = delete_bitset.clone();
    assert_eq!(copy.num_deleted(), 2);
    assert_eq!(copy.space_usage(), 2);
    for doc in 0..12u32 {
        assert_eq!(copy.is_deleted(doc), delete_bitset.is_deleted(doc));
    }
}

#[test]
fn merge_counts_the_union() {
    let left = DeleteBitSet::for_test(&[1, 9], 10);
    let right = DeleteBitSet::for_test(&[1, 5, 9, 14], 15);
    let merged = merge_delete_bitset(&left, &right);
    assert_eq!(merged.num_deleted(), 4);
    assert_eq!(merged.len(), 4);
    assert_eq!(merged.space_usage(), 2);
    assert_eq!(left.num_deleted(), 2);
    assert_eq!(right.num_deleted(), 4);
}

#[test]
fn merge_is_commutative() {
    let a = DeleteBitSet::open(vec![0b0101_0101, 0b1111_0000, 0b0000_0001]);
    let b = DeleteBitSet::open(vec![0b0011_0011]);
    let ab = merge_delete_bitset(&a, &b);
    let ba = merge_delete_bitset(&b, &a);
    assert_eq!(ab.space_usage(), 3);
    assert_eq!(ba.space_usage(), 3);
    assert_eq!(ab.num_deleted(), ba.num_deleted());
    assert_eq!(ab.num_deleted(), 11);
    for doc in 0..24u32 {
        assert_eq!(ab.is_deleted(doc), ba.is_deleted(doc));
    }
}

#[test]
fn merge_is_associative() {
    let a = DeleteBitSet::open(vec![0b0000_0001]);
    let b = DeleteBitSet::open(vec![0b0000_0010, 0b0000_0100]);
    let c = DeleteBitSet::open(vec![0b0000_0011, 0, 0b1000_0000]);
    let left_first = merge_delete_bitset(&merge_delete_bitset(&a, &b), &c);
    let right_first = merge_delete_bitset(&a, &merge_delete_bitset(&b, &c));
    assert_eq!(left_first.space_usage(), 3);
    assert_eq!(right_first.space_usage(), 3);
    assert_eq!(left_first.num_deleted(), 4);
    assert_eq!(right_first.num_deleted(), 4);
    for doc in 0..24u32 {
        assert_eq!(left_first.is_deleted(doc), right_first.is_deleted(doc));
    }
}

#[test]
fn merge_extends_the_shorter_operand_with_zeros() {
    let shorter = DeleteBitSet::open(vec![0b1111_1111]);
    let longer = DeleteBitSet::open(vec![0b0000_0000, 0b1010_1010, 0b0000_0001]);
    let merged = merge_delete_bitset(&shorter, &longer);
    assert_eq!(merged.space_usage(), 3);
    for doc in 0..8u32 {
        assert!(merged.is_deleted(doc));
    }
    for doc in 8..24u32 {
        assert_eq!(merged.is_deleted(doc), longer.is_deleted(doc));
    }
    assert_eq!(merged.num_deleted(), 8 + 4 + 1);

    let merged = merge_delete_bitset(&longer, &shorter);
    assert_eq!(merged.space_usage(), 3);
    for doc in 8..24u32 {
        assert_eq!(merged.is_deleted(doc), longer.is_deleted(doc));
    }
}

#[test]
fn merge_with_the_empty_buffer_changes_nothing() {
    let empty = DeleteBitSet::open(vec![]);
    let some = DeleteBitSet::open(vec![0b0001_0000, 0b0000_1000]);
    let merged = merge_delete_bitset(&empty, &some);
    assert_eq!(merged.space_usage(), 2);
    assert_eq!(merged.num_deleted(), 2);
    assert!(merged.is_deleted(4));
    assert!(merged.is_deleted(11));
    let none = merge_delete_bitset(&empty, &empty);
    assert_eq!(none.space_usage(), 0);
    assert_eq!(none.num_deleted(), 0);
}

#[test]
fn merge_of_a_set_with_itself_is_that_set() {
    let some = DeleteBitSet::for_test(&[0, 2, 30], 31);
    let merged = merge_delete_bitset(&some, &some);
    assert_eq!(merged.space_usage(), 4);
    assert_eq!(merged.num_deleted(), 3);
    for doc in 0..31u32 {
        assert_eq!(merged.is_deleted(doc), some.is_deleted(doc));
    }
}
