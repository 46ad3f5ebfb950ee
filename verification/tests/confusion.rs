use utmmmmm::confusion::{common_prefix_len, prefix_confusion_cost};

#[test]
fn codes_agree_up_to_their_first_difference() {
    assert_eq!(common_prefix_len(0b101, 0b100, 3), 2);
    assert_eq!(common_prefix_len(0b101, 0b101, 3), 3);
    assert_eq!(common_prefix_len(0b000, 0b100, 3), 0);
    assert_eq!(common_prefix_len(0b0110, 0b0101, 4), 2);
    assert_eq!(common_prefix_len(0, 0, 0), 0);
}

#[test]
fn confusion_weighs_each_pair_by_its_shared_prefix() {
    // codes 00, 01, 11: pairs (0,1) share 1 bit, (0,2) none, (1,2) none
    let w = vec![vec![0, 5, 7], vec![5, 0, 3], vec![7, 3, 0]];
    assert_eq!(prefix_confusion_cost(&w, &vec![0b00, 0b01, 0b11], 2), 5);
    // codes 00, 10, 11: only (1,2) shares a bit
    assert_eq!(prefix_confusion_cost(&w, &vec![0b00, 0b10, 0b11], 2), 3);
    assert_eq!(prefix_confusion_cost(&vec![], &vec![], 2), 0);
}

#[test]
fn to_binary_writes_the_most_significant_bit_first() {
    assert_eq!(utmmmmm::binary::to_binary(5, 4), vec![false, true, false, true]);
    assert_eq!(utmmmmm::binary::to_binary(0, 0), Vec::<bool>::new());
    assert_eq!(utmmmmm::binary::to_binary(3, 2), vec![true, true]);
}
