use arrow2::bitmap::{Bitmap, MutableBitmap};

#[test]
fn bits_are_packed_low_bit_first() {
    let mut bitmap = MutableBitmap::new();
    assert!(bitmap.is_empty());
    for bit in [true, false, true, true, false, false, false, false, true] {
        bitmap.push(bit);
    }
    assert_eq!(bitmap.len(), 9);
    assert_eq!(bitmap.as_slice(), &[0b0000_1101, 0b0000_0001]);
    assert!(bitmap.get(0));
    assert!(!bitmap.get(1));
    assert!(bitmap.get(8));
    assert_eq!(bitmap.null_count(), 5);
}

#[test]
fn pop_clears_what_it_takes() {
    let mut bitmap = MutableBitmap::from_bools(&[true, true, true, true, true, true, true, true, true]);
    assert_eq!(bitmap.as_slice(), &[0xff, 0x01]);
    assert_eq!(bitmap.pop(), Some(true));
    assert_eq!(bitmap.as_slice(), &[0xff]);
    assert_eq!(bitmap.pop(), Some(true));
    assert_eq!(bitmap.as_slice(), &[0x7f]);
    assert_eq!(bitmap.len(), 7);
    bitmap.push(false);
    assert_eq!(bitmap.as_slice(), &[0x7f]);
    assert_eq!(bitmap, MutableBitmap::from_bools(&[true, true, true, true, true, true, true, false]));
    let mut empty = MutableBitmap::new();
    assert_eq!(empty.pop(), None);
    assert_eq!(empty.len(), 0);
}

#[test]
fn set_changes_one_bit() {
    let mut bitmap = MutableBitmap::from_bools(&[false; 10]);
    bitmap.set(9, true);
    bitmap.set(0, true);
    bitmap.set(3, true);
    bitmap.set(3, false);
    let bits: Vec<bool> = (0..10).map(|i| bitmap.get(i)).collect();
    assert_eq!(
        bits,
        vec![true, false, false, false, false, false, false, false, false, true]
    );
}

#[test]
fn extend_by_constants_and_slices() {
    let mut bitmap = MutableBitmap::with_capacity(20);
    bitmap.extend_constant(3, true);
    bitmap.extend_constant(2, false);
    bitmap.extend_constant(0, true);
    bitmap.extend_from_bools(&[true, false]);
    let bits: Vec<bool> = (0..bitmap.len()).map(|i| bitmap.get(i)).collect();
    assert_eq!(bits, vec![true, true, true, false, false, true, false]);

    let mut other = MutableBitmap::new();
    other.extend_from_slice(&[0b1010_0110, 0b0000_0001], 1, 8);
    let bits: Vec<bool> = (0..other.len()).map(|i| other.get(i)).collect();
    assert_eq!(
        bits,
        vec![true, true, false, false, true, false, true, true]
    );
}

#[test]
fn room_and_shrinking() {
    let mut bitmap = MutableBitmap::with_capacity(100);
    bitmap.push(true);
    assert!(bitmap.capacity() >= 100);
    bitmap.shrink_to_fit();
    assert!(bitmap.capacity() >= 1);
    assert!(bitmap.capacity() < 100);
    assert_eq!(bitmap.len(), 1);
    assert!(bitmap.get(0));
    let copy = bitmap.clone();
    assert_eq!(copy, bitmap);
    assert_eq!(MutableBitmap::default().len(), 0);
}

#[test]
fn frozen_bitmaps() {
    let bitmap = Bitmap::from_bools(&[true, false, false]);
    assert_eq!(bitmap.len(), 3);
    assert!(!bitmap.is_empty());
    assert!(bitmap.get_bit(0));
    assert!(!bitmap.get_bit(2));
    assert_eq!(bitmap.null_count(), 2);
    assert_eq!(bitmap.as_slice(), &[1]);
    assert_eq!(
        Bitmap::from_mutable(MutableBitmap::from_bools(&[true, false, false])),
        bitmap
    );
    assert_eq!(bitmap.clone(), bitmap);
}
