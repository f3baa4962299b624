use slobster::pointer::PtrIterMut;

#[test]
fn addresses_come_from_both_ends() {
    let mut addresses = PtrIterMut::new(0x1000, 4, 16);
    assert_eq!(addresses.len(), 4);
    assert_eq!(addresses.size_hint(), (4, Some(4)));
    assert_eq!(addresses.next(), Some(0x1000));
    assert_eq!(addresses.next_back(), Some(0x1030));
    assert_eq!(addresses.next_back(), Some(0x1020));
    assert_eq!(addresses.len(), 1);
    assert_eq!(addresses.next(), Some(0x1010));
    assert_eq!(addresses.next(), None);
    assert_eq!(addresses.next_back(), None);
    assert_eq!(addresses.size_hint(), (0, Some(0)));
}

#[test]
fn null_has_no_items() {
    assert!(PtrIterMut::new_ptr(0, 4, 16).is_none());
    assert_eq!(PtrIterMut::new_ptr(0x1000, 1, 16).unwrap().next(), Some(0x1000));
}
