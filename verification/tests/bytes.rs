use dexios::bytes::{all_zero, append, append_zeros, copy_range, overwrite};

#[test]
fn copy_range_takes_the_bytes_between_the_bounds() {
    assert_eq!(copy_range(&[1, 2, 3, 4, 5], 1, 4), vec![2, 3, 4]);
    assert_eq!(copy_range(&[1, 2, 3], 0, 3), vec![1, 2, 3]);
    assert_eq!(copy_range(&[1, 2, 3], 2, 2), Vec::<u8>::new());
}

#[test]
fn append_puts_bytes_at_the_end() {
    let mut v = vec![1u8, 2];
    append(&mut v, &[3, 4]);
    assert_eq!(v, vec![1, 2, 3, 4]);
    append(&mut v, &[]);
    assert_eq!(v, vec![1, 2, 3, 4]);
    append_zeros(&mut v, 3);
    assert_eq!(v, vec![1, 2, 3, 4, 0, 0, 0]);
}

#[test]
fn all_zero_looks_at_the_range_only() {
    assert!(all_zero(&[1, 0, 0, 2], 1, 3));
    assert!(!all_zero(&[1, 0, 0, 2], 0, 3));
    assert!(!all_zero(&[1, 0, 0, 2], 1, 4));
    assert!(all_zero(&[1, 2], 1, 1));
}

#[test]
fn overwrite_replaces_in_place() {
    let mut v = vec![1u8, 2, 3, 4, 5];
    overwrite(&mut v, 1, &[9, 8]);
    assert_eq!(v, vec![1, 9, 8, 4, 5]);
    overwrite(&mut v, 0, &[]);
    assert_eq!(v, vec![1, 9, 8, 4, 5]);
}

#[test]
fn overwrite_lengthens_a_short_buffer() {
    let mut v = vec![1u8, 2, 3];
    overwrite(&mut v, 2, &[7, 7, 7]);
    assert_eq!(v, vec![1, 2, 7, 7, 7]);
    let mut w = vec![1u8];
    overwrite(&mut w, 1, &[5]);
    assert_eq!(w, vec![1, 5]);
}
