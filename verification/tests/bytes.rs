use novation_bridge::bytes::{from_le_bytes, same_bytes, to_le_bytes};

#[test]
fn little_endian() {
    assert_eq!(to_le_bytes(0x04030201), [1, 2, 3, 4]);
    assert_eq!(from_le_bytes([1, 2, 3, 4]), 0x04030201);
    for value in [0, 1, 255, 256, 123456, u32::MAX] {
        assert_eq!(to_le_bytes(value), value.to_le_bytes());
        assert_eq!(from_le_bytes(to_le_bytes(value)), value);
    }
}

#[test]
fn comparison() {
    assert!(same_bytes(&[], &[]));
    assert!(same_bytes(&[1, 2], &[1, 2]));
    assert!(!same_bytes(&[1, 2], &[1, 3]));
    assert!(!same_bytes(&[1, 2], &[1]));
}
