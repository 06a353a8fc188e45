use cfs::bitmap::{first_free_in, zeros, Bam, Bitmap, Iam};

#[test]
fn new_maps_are_all_free() {
    let mut bam = Bam::new(4);
    assert_eq!(bam.data, vec![0u8; 4]);
    for i in 0..32 {
        assert!(!bam.get(i));
    }
    let iam = Iam::new(0);
    assert!(iam.data.is_empty());
    assert_eq!(zeros(3), vec![0u8; 3]);
}

#[test]
fn bits_are_numbered_from_the_least_significant() {
    let mut bam = Bam::new(2);
    bam.set(0);
    assert_eq!(bam.data, vec![0b0000_0001, 0]);
    bam.set(7);
    assert_eq!(bam.data, vec![0b1000_0001, 0]);
    bam.set(9);
    assert_eq!(bam.data, vec![0b1000_0001, 0b0000_0010]);
    bam.clear(0);
    assert_eq!(bam.data, vec![0b1000_0000, 0b0000_0010]);
}

#[test]
fn set_then_get_is_true() {
    let mut iam = Iam::new(8);
    for i in [0usize, 1, 7, 8, 31, 63] {
        iam.set(i);
        assert!(iam.get(i));
    }
}

#[test]
fn set_then_clear_then_get_is_false() {
    let mut iam = Iam::new(8);
    for i in 0..64 {
        iam.set(i);
        iam.clear(i);
        assert!(!iam.get(i));
    }
    assert_eq!(iam.data, vec![0u8; 8]);
}

#[test]
fn set_and_clear_leave_other_bits_alone() {
    let mut bam = Bam::new(4);
    bam.data = vec![0b1010_0101, 0xff, 0x00, 0b0101_1010];
    let before: Vec<bool> = (0..32).map(|i| bam.get(i)).collect();
    assert!(!before[1] && before[12]);
    bam.set(1);
    for i in 0..32 {
        assert_eq!(bam.get(i), i == 1 || before[i]);
    }
    bam.clear(1);
    bam.clear(12);
    for i in 0..32 {
        assert_eq!(bam.get(i), i != 12 && before[i]);
    }
}

#[test]
fn setting_a_set_bit_and_clearing_a_clear_bit_change_nothing() {
    let mut bam = Bam::new(1);
    bam.set(3);
    bam.set(3);
    assert_eq!(bam.data, vec![0b0000_1000]);
    bam.clear(4);
    assert_eq!(bam.data, vec![0b0000_1000]);
}

#[test]
fn get_and_first_free_do_not_change_the_map() {
    let mut bam = Bam::new(3);
    bam.data = vec![0xff, 0x0f, 0x80];
    let _ = bam.get(5);
    let _ = bam.first_free();
    assert_eq!(bam.data, vec![0xff, 0x0f, 0x80]);
}

#[test]
fn first_free_is_the_smallest_clear_bit() {
    let mut bam = Bam::new(3);
    assert_eq!(bam.first_free(), Some(0));
    bam.set(0);
    assert_eq!(bam.first_free(), Some(1));
    bam.data = vec![0xff, 0xff, 0b1111_0111];
    assert_eq!(bam.first_free(), Some(19));
    bam.data = vec![0xff, 0b0111_1111, 0x00];
    assert_eq!(bam.first_free(), Some(15));
    bam.clear(3);
    assert_eq!(bam.first_free(), Some(3));
}

#[test]
fn first_free_is_none_only_when_every_bit_is_set() {
    let mut iam = Iam::new(2);
    iam.data = vec![0xff, 0xff];
    assert_eq!(iam.first_free(), None);
    iam.clear(15);
    assert_eq!(iam.first_free(), Some(15));
    let mut empty = Iam::new(0);
    assert_eq!(empty.first_free(), None);
    assert_eq!(first_free_in(&vec![0xff, 0xfe]), Some(8));
}

#[test]
fn filling_a_map_bit_by_bit_takes_every_index_in_order() {
    let mut bam = Bam::new(5);
    for expected in 0..40 {
        let got = bam.first_free().unwrap();
        assert_eq!(got, expected);
        bam.set(got);
    }
    assert_eq!(bam.first_free(), None);
    assert_eq!(bam.data, vec![0xff; 5]);
}
