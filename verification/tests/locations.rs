use atomic::location::Location;

#[test]
fn a_location_keeps_its_address_alignment_and_bytes() {
    let dst = Location::new(0x1000, 8, vec![1, 2, 3]).unwrap();
    assert_eq!(dst.addr(), 0x1000);
    assert_eq!(dst.align(), 8);
    assert_eq!(dst.size(), 3);
    assert_eq!(dst.read(), vec![1, 2, 3]);
}

#[test]
fn a_misaligned_address_is_no_location() {
    assert!(Location::new(0x1001, 2, vec![0, 0]).is_none());
    assert!(Location::new(0x1004, 8, vec![0; 8]).is_none());
    assert!(Location::new(0x1000, 0, vec![]).is_none());
    assert!(Location::new(0x1001, 1, vec![0, 0]).is_some());
}

#[test]
fn a_write_replaces_all_bytes_and_nothing_else() {
    let mut dst = Location::new(0x20, 4, vec![0; 4]).unwrap();
    dst.write(&[9, 8, 7, 6]);
    assert_eq!(dst.read(), vec![9, 8, 7, 6]);
    assert_eq!(dst.addr(), 0x20);
    assert_eq!(dst.align(), 4);
    assert_eq!(dst.size(), 4);
    assert_eq!(dst.replace(&[1, 1, 1, 1]), vec![9, 8, 7, 6]);
    assert_eq!(dst.read(), vec![1, 1, 1, 1]);
}

#[test]
fn a_location_holds_the_bytes_of_a_value_as_memory_does() {
    let value: u32 = 0x0102_0304;
    let dst = Location::holding(0x40, &value).unwrap();
    assert_eq!(dst.size(), 4);
    assert_eq!(dst.align(), std::mem::align_of::<u32>());
    assert_eq!(dst.read(), value.to_ne_bytes().to_vec());
    assert_ne!(dst.read(), vec![0u8; 4]);
}

#[test]
fn a_location_has_the_layout_of_the_type_that_it_holds() {
    let triple: [u64; 3] = [1, 2, 3];
    let dst = Location::holding(0x80, &triple).unwrap();
    assert_eq!(dst.size(), 24);
    assert_eq!(dst.align(), std::mem::align_of::<u64>());
    let mut expected = Vec::new();
    for part in triple {
        expected.extend_from_slice(&part.to_ne_bytes());
    }
    assert_eq!(dst.read(), expected);
    let byte: u8 = 7;
    let small = Location::holding(0x81, &byte).unwrap();
    assert_eq!(small.size(), 1);
    assert_eq!(small.align(), 1);
    assert_eq!(small.read(), vec![7]);
}

#[test]
fn a_value_at_an_address_that_its_type_forbids_is_no_location() {
    let value: u32 = 5;
    assert!(Location::holding(0x41, &value).is_none());
    assert!(Location::holding(0x42, &value).is_none());
    assert!(Location::holding(0x44, &value).is_some());
}
