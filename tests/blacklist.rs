use ebpf_node::blacklist::{Blacklist, BlacklistError, PrefixKey, BLACKLIST_MAX_ENTRIES};

fn ip(a: u8, b: u8, c: u8, d: u8) -> u32 {
    u32::from_be_bytes([a, b, c, d])
}

#[test]
fn empty_table_finds_nothing() {
    let t = Blacklist::new();
    assert_eq!(t.lookup(ip(10, 0, 0, 5)), None);
    assert_eq!(t.len(), 0);
    assert_eq!(t.max_entries(), BLACKLIST_MAX_ENTRIES);
}

#[test]
fn longer_prefix_wins() {
    let mut t = Blacklist::new();
    assert_eq!(t.insert(PrefixKey::new(8, ip(10, 0, 0, 0)), 1), Ok(()));
    assert_eq!(t.insert(PrefixKey::new(24, ip(10, 1, 2, 0)), 2), Ok(()));
    assert_eq!(t.lookup(ip(10, 1, 2, 3)), Some(2));
    assert_eq!(t.lookup(ip(10, 1, 3, 3)), Some(1));
    assert_eq!(t.lookup(ip(11, 1, 2, 3)), None);
}

#[test]
fn longer_prefix_wins_in_either_order() {
    let mut t = Blacklist::new();
    assert_eq!(t.insert(PrefixKey::new(24, ip(10, 1, 2, 0)), 2), Ok(()));
    assert_eq!(t.insert(PrefixKey::new(8, ip(10, 0, 0, 0)), 1), Ok(()));
    assert_eq!(t.lookup(ip(10, 1, 2, 200)), Some(2));
}

#[test]
fn host_prefix_matches_only_its_address() {
    let mut t = Blacklist::new();
    let a = ip(192, 168, 7, 9);
    assert_eq!(t.insert(PrefixKey::new(32, a), 1), Ok(()));
    assert_eq!(t.lookup(a), Some(1));
    assert_eq!(t.lookup(a + 1), None);
    assert_eq!(t.lookup(a - 1), None);
}

#[test]
fn zero_length_prefix_matches_everything() {
    let mut t = Blacklist::new();
    assert_eq!(t.insert(PrefixKey::new(0, 0), 7), Ok(()));
    assert_eq!(t.lookup(0), Some(7));
    assert_eq!(t.lookup(u32::MAX), Some(7));
}

#[test]
fn same_block_replaces_value() {
    let mut t = Blacklist::new();
    assert_eq!(t.insert(PrefixKey::new(24, ip(10, 1, 2, 0)), 1), Ok(()));
    assert_eq!(t.insert(PrefixKey::new(24, ip(10, 1, 2, 77)), 5), Ok(()));
    assert_eq!(t.len(), 1);
    assert_eq!(t.lookup(ip(10, 1, 2, 1)), Some(5));
}

#[test]
fn prefix_over_32_is_refused() {
    let mut t = Blacklist::new();
    assert_eq!(t.insert(PrefixKey::new(33, 1), 1), Err(BlacklistError::InvalidPrefix));
    assert_eq!(t.len(), 0);
}

#[test]
fn full_table_refuses_new_block() {
    let mut t = Blacklist::new();
    for i in 0..BLACKLIST_MAX_ENTRIES as u32 {
        assert_eq!(t.insert(PrefixKey::new(32, i), 1), Ok(()));
    }
    assert_eq!(t.len(), BLACKLIST_MAX_ENTRIES);
    let extra = 5000u32;
    assert_eq!(t.insert(PrefixKey::new(32, extra), 1), Err(BlacklistError::CapacityExceeded));
    assert_eq!(t.len(), BLACKLIST_MAX_ENTRIES);
    assert_eq!(t.lookup(extra), None);
    assert_eq!(t.lookup(3), Some(1));
    // An existing block can still be updated.
    assert_eq!(t.insert(PrefixKey::new(32, 3), 9), Ok(()));
    assert_eq!(t.lookup(3), Some(9));
}

#[test]
fn small_table_capacity() {
    let mut t = Blacklist::with_max_entries(2);
    assert_eq!(t.insert(PrefixKey::new(16, ip(10, 0, 0, 0)), 1), Ok(()));
    assert_eq!(t.insert(PrefixKey::new(16, ip(10, 1, 0, 0)), 1), Ok(()));
    assert_eq!(t.insert(PrefixKey::new(16, ip(10, 2, 0, 0)), 1), Err(BlacklistError::CapacityExceeded));
    assert_eq!(t.lookup(ip(10, 2, 0, 1)), None);
}
