use overpass::boc::Boc;
use overpass::errors::SystemError;

#[test]
fn content_hash_matches_reference_digest() {
    // SHA-256 of the canonical framing of a one-cell container, computed
    // independently: framing is cell count, then each cell's length and
    // bytes, then reference count, then root count, lengths little-endian.
    let expected: [u8; 32] = [
        238, 53, 31, 168, 73, 41, 20, 145, 13, 211, 17, 18, 77, 97, 9, 13, 104, 18, 101, 50, 34,
        250, 130, 24, 247, 126, 25, 89, 175, 226, 222, 16,
    ];
    let mut boc = Boc::new();
    boc.add_cell(vec![1u8, 2, 3]);
    assert_eq!(boc.content_hash(), expected);
    let enc = boc.encode();
    assert_eq!(enc.len(), 8 + 8 + 3 + 8 + 8);
    assert_ne!(boc.content_hash().to_vec(), enc);
}

#[test]
fn content_hash_is_deterministic_and_content_sensitive() {
    let mut a = Boc::new();
    a.add_cell(vec![1u8, 2, 3]);
    let mut b = Boc::new();
    b.add_cell(vec![1u8, 2, 3]);
    assert_eq!(a.content_hash(), b.content_hash());

    let mut c = Boc::new();
    c.add_cell(vec![1u8, 2, 4]);
    assert_ne!(a.content_hash(), c.content_hash());
}

#[test]
fn references_and_roots_must_point_at_cells() {
    let mut boc = Boc::new();
    let first = boc.add_cell(vec![1u8]);
    let second = boc.add_cell(vec![2u8]);
    assert_eq!((first, second), (0, 1));
    assert!(boc.add_reference(first, second).is_ok());
    assert!(matches!(boc.add_reference(first, 5), Err(SystemError::DataConversionError)));
    assert!(boc.add_root(second).is_ok());
    assert!(matches!(boc.add_root(7), Err(SystemError::DataConversionError)));
    assert!(matches!(boc.root_cell_data(1), Err(SystemError::NotFound)));
    assert_eq!(boc.root_cell_data(0).unwrap(), vec![2u8]);
}
