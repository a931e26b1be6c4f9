use bit_rev::bitfield::Bitfield;

#[test]
fn has_piece_test() {
    let bitfield = Bitfield::new(vec![0b01010100, 0b01010100]);
    let outputs = [
        false, true, false, true, false, true, false, false, false, true, false, true, false, true,
        false, false, false, false, false, false,
    ];
    for (index, expected) in outputs.iter().enumerate() {
        assert_eq!(bitfield.has_piece(index), *expected);
    }
}

#[test]
fn set_piece_test() {
    let tests = [
        (
            // Set
            vec![0b01010100, 0b01010100],
            vec![0b01011100, 0b01010100],
            4,
        ),
        (
            // Not Set
            vec![0b01010100, 0b01010100],
            vec![0b01010100, 0b01010100],
            9,
        ),
        (
            // Set
            vec![0b01010100, 0b01010100],
            vec![0b01010100, 0b01010101],
            15,
        ),
        (
            //Not Set
            vec![0b01010100, 0b01010100],
            vec![0b01010100, 0b01010100],
            19,
        ),
    ];

    for (actual, expected, index) in tests.iter() {
        let mut bitfield = Bitfield::new(actual.clone());
        bitfield.set_piece(*index);
        assert_eq!(bitfield.bytes, *expected);
    }
}

#[test]
fn bitfield_is_empty_only_when_all_bytes_are_zero() {
    assert!(Bitfield::new(vec![]).is_empty());
    assert!(Bitfield::new(vec![0, 0, 0]).is_empty());
    assert!(!Bitfield::new(vec![0, 0, 1]).is_empty());
    let mut b = Bitfield::new(vec![0, 0]);
    b.set_piece(9);
    assert!(!b.is_empty());
    assert!(b.has_piece(9));
}

#[test]
fn oversized_bitfield_is_accepted_and_spare_bits_do_not_matter() {
    // Three pieces need one byte; the peer sends three, with spare bits set.
    let b = Bitfield::new(vec![0b1010_0001, 0xff, 0xff]);
    assert!(b.has_piece(0));
    assert!(!b.has_piece(1));
    assert!(b.has_piece(2));
    let pieces = 3;
    let held: Vec<usize> = (0..pieces).filter(|&i| b.has_piece(i)).collect();
    assert_eq!(held, vec![0, 2]);
}

#[test]
fn set_piece_out_of_range_is_a_no_op() {
    let mut b = Bitfield::new(vec![0]);
    b.set_piece(8);
    assert_eq!(b.bytes, vec![0]);
    b.set_piece(0);
    assert_eq!(b.bytes, vec![0b1000_0000]);
}
