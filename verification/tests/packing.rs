use fumen_bytes::packer::BaseEightIter;
use fumen_bytes::unpacker::Unpacker;

fn pack(bytes: &[u8]) -> Vec<u8> {
    let mut it = BaseEightIter::new(bytes.to_vec());
    let mut symbols = Vec::new();
    while let Some(symbol) = it.next() {
        symbols.push(symbol);
    }
    assert_eq!(it.next(), None);
    symbols
}

fn unpack(symbols: &[u8]) -> Vec<u8> {
    let mut unpacker = Unpacker::new();
    for &symbol in symbols {
        unpacker.push(symbol);
    }
    unpacker.finish()
}

#[test]
fn single_byte_five_gives_five_zero_zero() {
    assert_eq!(pack(&[0b0000_0101]), vec![5, 0, 0]);
}

#[test]
fn all_ones_byte_gives_seven_seven_three() {
    assert_eq!(pack(&[0xFF]), vec![7, 7, 3]);
}

#[test]
fn two_bytes_are_split_across_the_byte_boundary() {
    assert_eq!(pack(&[0x12, 0x34]), vec![2, 2, 0, 2, 3, 0]);
}

#[test]
fn three_bytes_fill_eight_symbols_exactly() {
    assert_eq!(pack(&[0xFF, 0xFF, 0xFF]), vec![7; 8]);
    assert_eq!(pack(&[0x88, 0xC6, 0xFA]), vec![0, 1, 2, 3, 4, 5, 6, 7]);
}

#[test]
fn symbol_count_is_the_ceiling_of_eight_thirds() {
    let expected = [0usize, 3, 6, 8, 11, 14, 16, 19, 22, 24, 27];
    for n in 0..expected.len() {
        let bytes = vec![0xA5u8; n];
        assert_eq!(pack(&bytes).len(), expected[n]);
        assert_eq!(pack(&bytes).len(), (8 * n + 2) / 3);
    }
}

#[test]
fn every_symbol_is_below_eight() {
    let bytes: Vec<u8> = (0..=255u8).collect();
    assert!(pack(&bytes).iter().all(|&s| s < 8));
}

#[test]
fn empty_input_gives_no_symbol() {
    assert_eq!(pack(&[]), Vec::<u8>::new());
    let mut it = BaseEightIter::new(Vec::new());
    assert_eq!(it.next(), None);
    assert_eq!(it.next(), None);
}

#[test]
fn no_symbols_give_no_bytes() {
    assert_eq!(unpack(&[]), Vec::<u8>::new());
}

#[test]
fn packing_twice_gives_the_same_symbols() {
    let bytes: Vec<u8> = vec![1, 2, 3, 250, 251, 252, 253];
    let copy = bytes.clone();
    assert_eq!(pack(&bytes), pack(&copy));
}

#[test]
fn exhausted_packer_stays_exhausted() {
    let mut it = BaseEightIter::new(vec![0x01]);
    assert_eq!(it.next(), Some(1));
    assert_eq!(it.next(), Some(0));
    assert_eq!(it.next(), Some(0));
    assert_eq!(it.next(), None);
    assert_eq!(it.next(), None);
}

#[test]
fn unpack_rebuilds_a_byte_from_three_symbols() {
    assert_eq!(unpack(&[7, 7, 3]), vec![0xFF]);
    assert_eq!(unpack(&[5, 0, 0]), vec![5]);
    assert_eq!(unpack(&[2, 2, 0, 2, 3, 0]), vec![0x12, 0x34]);
}

#[test]
fn unpack_drops_a_byte_that_is_not_whole() {
    assert_eq!(unpack(&[7]), Vec::<u8>::new());
    assert_eq!(unpack(&[7, 7]), Vec::<u8>::new());
    assert_eq!(unpack(&[7, 7, 7]), vec![0xFF]);
    assert_eq!(unpack(&[7, 7, 7, 7, 7]), vec![0xFF]);
    assert_eq!(unpack(&[7, 7, 7, 7, 7, 7]), vec![0xFF, 0xFF]);
}

#[test]
fn unpack_on_a_byte_boundary_gives_the_whole_bytes_only() {
    assert_eq!(unpack(&[0, 1, 2, 3, 4, 5, 6, 7]), vec![0x88, 0xC6, 0xFA]);
    assert_eq!(unpack(&[7; 16]), vec![0xFF, 0xFF, 0xFF, 0xFF, 0xFF, 0xFF]);
    assert_eq!(unpack(&[1, 0, 0, 1, 0, 6, 0, 0]), vec![1, 2, 3]);
}

#[test]
fn round_trip_gives_the_bytes_back() {
    for n in [0usize, 1, 2, 3, 4, 5, 6, 7, 8, 9, 10, 90, 100, 240, 241, 300] {
        let bytes: Vec<u8> = (0..n).map(|i| (i * 37 + 11) as u8).collect();
        assert_eq!(unpack(&pack(&bytes)), bytes);
    }
}

#[test]
fn round_trip_of_a_multiple_of_three_bytes_adds_no_byte() {
    assert_eq!(pack(&[1, 2, 3]), vec![1, 0, 0, 1, 0, 6, 0, 0]);
    assert_eq!(unpack(&pack(&[1, 2, 3])), vec![1, 2, 3]);
    for n in [3usize, 6, 9, 90] {
        let bytes: Vec<u8> = (0..n).map(|i| (i * 37 + 11) as u8).collect();
        assert_eq!(unpack(&pack(&bytes)), bytes);
        let zeros = vec![0u8; n];
        assert_eq!(unpack(&pack(&zeros)), zeros);
    }
}

#[test]
fn every_single_byte_survives_the_round_trip() {
    for b in 0..=255u8 {
        assert_eq!(unpack(&pack(&[b])), vec![b]);
    }
}
