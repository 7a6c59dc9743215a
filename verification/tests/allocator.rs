//! The identifier allocator: first-fit order, reuse, growth.

use popusk::storage::available_id_list::{
    find_zero_in_byte, set_one_in_byte, set_zero_in_byte, AvailableIDList, BLOCK_SIZE,
};
use popusk::ID;

#[test]
fn grabs_count_up_from_zero() {
    let mut ail = AvailableIDList::new();
    for expected in 0u64..20 {
        assert_eq!(ail.grab_id(), ID(expected));
    }
}

#[test]
fn released_id_is_reused_at_once() {
    let mut ail = AvailableIDList::new();
    let id0 = ail.grab_id();
    ail.release_id(id0);
    assert_eq!(ail.grab_id(), id0);
}

#[test]
fn lowest_free_id_wins() {
    let mut ail = AvailableIDList::new();
    for _ in 0..3 {
        ail.grab_id();
    }
    ail.release_id(ID(1));
    assert_eq!(ail.grab_id(), ID(1));
    assert_eq!(ail.grab_id(), ID(3));
}

#[test]
fn release_out_of_range_is_a_no_op() {
    let mut ail = AvailableIDList::new();
    ail.release_id(ID(1_000_000_000));
    assert_eq!(ail.grab_id(), ID(0));
}

#[test]
fn map_grows_by_a_block_when_full() {
    let mut ail = AvailableIDList::new();
    let bits = 8 * BLOCK_SIZE as u64;
    for expected in 0..bits {
        assert_eq!(ail.grab_id(), ID(expected));
    }
    assert_eq!(ail.byte_count(), BLOCK_SIZE);
    assert_eq!(ail.grab_id(), ID(bits));
    assert_eq!(ail.byte_count(), 2 * BLOCK_SIZE);
}

#[test]
fn rebuilding_from_bytes_keeps_the_state() {
    let mut ail = AvailableIDList::new();
    ail.grab_id();
    ail.grab_id();
    let bytes = ail.bytes().clone();
    let mut again = AvailableIDList::from_bytes(bytes).unwrap();
    assert_eq!(again.grab_id(), ID(2));
}

#[test]
fn from_bytes_rejects_partial_blocks() {
    assert!(AvailableIDList::from_bytes(vec![0u8; 100]).is_none());
}

#[test]
fn byte_level_helpers() {
    assert_eq!(find_zero_in_byte(0b1111_1011), 2);
    assert_eq!(find_zero_in_byte(0b0000_0000), 0);
    assert_eq!(find_zero_in_byte(0b0111_1111), 7);
    assert_eq!(set_one_in_byte(0b0000_0000, 3), 0b0000_1000);
    assert_eq!(set_zero_in_byte(0b1111_1111, 0), 0b1111_1110);
}
