use simple8b::pack::{
    can_pack, pack1, pack10, pack12, pack120, pack15, pack2, pack20, pack240, pack3, pack30, pack4,
    pack5, pack6, pack60, pack7, pack8,
};
use simple8b::unpack::{
    unpack1, unpack10, unpack12, unpack120, unpack15, unpack2, unpack20, unpack240, unpack3,
    unpack30, unpack4, unpack5, unpack6, unpack60, unpack7, unpack8,
};

#[test]
fn pack240_of_ones_has_no_payload() {
    let src = [1u64; 240];
    assert!(can_pack(&src, 240, 0));
    assert_eq!(pack240(&src), 0x0000_0000_0000_0000);
}

#[test]
fn unpack240_fills_ones_whatever_the_payload() {
    let mut dst = [7u64; 250];
    unpack240(0x0012_3456_789A_BCDE, &mut dst);
    assert!(dst[..240].iter().all(|v| *v == 1));
    assert!(dst[240..].iter().all(|v| *v == 7));
}

#[test]
fn pack120_of_ones_has_no_payload() {
    let src = [1u64; 120];
    assert!(can_pack(&src, 120, 0));
    assert_eq!(pack120(&src), 0x1000_0000_0000_0000);
}

#[test]
fn unpack120_fills_ones_whatever_the_payload() {
    let mut dst = [7u64; 250];
    unpack120(0x1012_3456_789A_BCDE, &mut dst);
    assert!(dst[..120].iter().all(|v| *v == 1));
    assert!(dst[120..].iter().all(|v| *v == 7));
}

#[test]
fn pack60_places_each_value_at_its_offset() {
    let src: [u64; 60] = [
        1, 1, 1, 0, 1, 1, 1, 1, 0, 0, 1, 0, 0, 1, 0, 1, 0, 0, 0, 0, 1, 1, 0, 1, 0, 1, 0, 1, 0, 1, 1,
        0, 1, 0, 0, 0, 0, 1, 0, 0, 1, 0, 0, 1, 0, 1, 1, 1, 0, 0, 0, 0, 0, 0, 1, 0, 1, 1, 0, 0,
    ];
    assert!(can_pack(&src, 60, 1));
    assert_eq!(pack60(&src), 0x2340_E921_6AB0_A4F7);
}

#[test]
fn unpack60_reads_each_value_back() {
    let expected: [u64; 60] = [
        1, 1, 1, 0, 1, 1, 1, 1, 0, 0, 1, 0, 0, 1, 0, 1, 0, 0, 0, 0, 1, 1, 0, 1, 0, 1, 0, 1, 0, 1, 1,
        0, 1, 0, 0, 0, 0, 1, 0, 0, 1, 0, 0, 1, 0, 1, 1, 1, 0, 0, 0, 0, 0, 0, 1, 0, 1, 1, 0, 0,
    ];
    let mut dst = [u64::MAX; 63];
    unpack60(0x2340_E921_6AB0_A4F7, &mut dst);
    assert_eq!(&dst[..60], &expected[..]);
    assert_eq!(&dst[60..], &[u64::MAX; 3][..]);
}

#[test]
fn pack30_places_each_value_at_its_offset() {
    let src: [u64; 30] = [
        3, 1, 3, 2, 1, 1, 3, 3, 0, 2, 1, 0, 2, 1, 0, 1, 2, 2, 0, 0, 1, 1, 0, 1, 0, 3, 0, 3, 0, 0,
    ];
    assert!(can_pack(&src, 30, 2));
    assert_eq!(pack30(&src), 0x30CC_450A_4618_F5B7);
}

#[test]
fn unpack30_reads_each_value_back() {
    let expected: [u64; 30] = [
        3, 1, 3, 2, 1, 1, 3, 3, 0, 2, 1, 0, 2, 1, 0, 1, 2, 2, 0, 0, 1, 1, 0, 1, 0, 3, 0, 3, 0, 0,
    ];
    let mut dst = [u64::MAX; 33];
    unpack30(0x30CC_450A_4618_F5B7, &mut dst);
    assert_eq!(&dst[..30], &expected[..]);
    assert_eq!(&dst[30..], &[u64::MAX; 3][..]);
}

#[test]
fn pack20_places_each_value_at_its_offset() {
    let src: [u64; 20] = [7, 5, 3, 2, 5, 1, 3, 3, 0, 6, 1, 0, 2, 1, 4, 5, 2, 6, 4, 0];
    assert!(can_pack(&src, 20, 3));
    assert_eq!(pack20(&src), 0x4132_B0A0_706C_D4EF);
}

#[test]
fn unpack20_reads_each_value_back() {
    let expected: [u64; 20] = [7, 5, 3, 2, 5, 1, 3, 3, 0, 6, 1, 0, 2, 1, 4, 5, 2, 6, 4, 0];
    let mut dst = [u64::MAX; 23];
    unpack20(0x4132_B0A0_706C_D4EF, &mut dst);
    assert_eq!(&dst[..20], &expected[..]);
    assert_eq!(&dst[20..], &[u64::MAX; 3][..]);
}

#[test]
fn pack15_places_each_value_at_its_offset() {
    let src: [u64; 15] = [15, 13, 3, 2, 13, 9, 11, 3, 8, 6, 1, 8, 2, 1, 15];
    assert!(can_pack(&src, 15, 4));
    assert_eq!(pack15(&src), 0x5F12_8168_3B9D_23DF);
}

#[test]
fn unpack15_reads_each_value_back() {
    let expected: [u64; 15] = [15, 13, 3, 2, 13, 9, 11, 3, 8, 6, 1, 8, 2, 1, 15];
    let mut dst = [u64::MAX; 18];
    unpack15(0x5F12_8168_3B9D_23DF, &mut dst);
    assert_eq!(&dst[..15], &expected[..]);
    assert_eq!(&dst[15..], &[u64::MAX; 3][..]);
}

#[test]
fn pack12_places_each_value_at_its_offset() {
    let src: [u64; 12] = [31, 13, 19, 2, 13, 25, 11, 3, 24, 22, 1, 0];
    assert!(can_pack(&src, 12, 5));
    assert_eq!(pack12(&src), 0x6006_D81A_F2D1_4DBF);
}

#[test]
fn unpack12_reads_each_value_back() {
    let expected: [u64; 12] = [31, 13, 19, 2, 13, 25, 11, 3, 24, 22, 1, 0];
    let mut dst = [u64::MAX; 15];
    unpack12(0x6006_D81A_F2D1_4DBF, &mut dst);
    assert_eq!(&dst[..12], &expected[..]);
    assert_eq!(&dst[12..], &[u64::MAX; 3][..]);
}

#[test]
fn pack10_places_each_value_at_its_offset() {
    let src: [u64; 10] = [63, 13, 19, 2, 45, 57, 43, 3, 56, 0];
    assert!(can_pack(&src, 10, 6));
    assert_eq!(pack10(&src), 0x7038_0EBE_6D09_337F);
}

#[test]
fn unpack10_reads_each_value_back() {
    let expected: [u64; 10] = [63, 13, 19, 2, 45, 57, 43, 3, 56, 0];
    let mut dst = [u64::MAX; 13];
    unpack10(0x7038_0EBE_6D09_337F, &mut dst);
    assert_eq!(&dst[..10], &expected[..]);
    assert_eq!(&dst[10..], &[u64::MAX; 3][..]);
}

#[test]
fn pack8_places_each_value_at_its_offset() {
    let src: [u64; 8] = [127, 13, 19, 66, 45, 121, 107, 0];
    assert!(can_pack(&src, 8, 7));
    assert_eq!(pack8(&src), 0x8001_AFCA_D844_C6FF);
}

#[test]
fn unpack8_reads_each_value_back() {
    let expected: [u64; 8] = [127, 13, 19, 66, 45, 121, 107, 0];
    let mut dst = [u64::MAX; 11];
    unpack8(0x8001_AFCA_D844_C6FF, &mut dst);
    assert_eq!(&dst[..8], &expected[..]);
    assert_eq!(&dst[8..], &[u64::MAX; 3][..]);
}

#[test]
fn pack7_places_each_value_at_its_offset() {
    let src: [u64; 7] = [255, 13, 147, 66, 45, 121, 255];
    assert!(can_pack(&src, 7, 8));
    assert_eq!(pack7(&src), 0x90FF_792D_4293_0DFF);
}

#[test]
fn unpack7_reads_each_value_back() {
    let expected: [u64; 7] = [255, 13, 147, 66, 45, 121, 255];
    let mut dst = [u64::MAX; 10];
    unpack7(0x90FF_792D_4293_0DFF, &mut dst);
    assert_eq!(&dst[..7], &expected[..]);
    assert_eq!(&dst[7..], &[u64::MAX; 3][..]);
}

#[test]
fn pack6_places_each_value_at_its_offset() {
    let src: [u64; 6] = [1023, 269, 659, 834, 301, 0];
    assert!(can_pack(&src, 6, 10));
    assert_eq!(pack6(&src), 0xA001_2DD0_A934_37FF);
}

#[test]
fn unpack6_reads_each_value_back() {
    let expected: [u64; 6] = [1023, 269, 659, 834, 301, 0];
    let mut dst = [u64::MAX; 9];
    unpack6(0xA001_2DD0_A934_37FF, &mut dst);
    assert_eq!(&dst[..6], &expected[..]);
    assert_eq!(&dst[6..], &[u64::MAX; 3][..]);
}

#[test]
fn pack5_places_each_value_at_its_offset() {
    let src: [u64; 5] = [4095, 3341, 1683, 2882, 4095];
    assert!(can_pack(&src, 5, 12));
    assert_eq!(pack5(&src), 0xBFFF_B426_93D0_DFFF);
}

#[test]
fn unpack5_reads_each_value_back() {
    let expected: [u64; 5] = [4095, 3341, 1683, 2882, 4095];
    let mut dst = [u64::MAX; 8];
    unpack5(0xBFFF_B426_93D0_DFFF, &mut dst);
    assert_eq!(&dst[..5], &expected[..]);
    assert_eq!(&dst[5..], &[u64::MAX; 3][..]);
}

#[test]
fn pack4_places_each_value_at_its_offset() {
    let src: [u64; 4] = [32767, 3341, 13971, 0];
    assert!(can_pack(&src, 4, 15));
    assert_eq!(pack4(&src), 0xC000_0DA4_C686_FFFF);
}

#[test]
fn unpack4_reads_each_value_back() {
    let expected: [u64; 4] = [32767, 3341, 13971, 0];
    let mut dst = [u64::MAX; 7];
    unpack4(0xC000_0DA4_C686_FFFF, &mut dst);
    assert_eq!(&dst[..4], &expected[..]);
    assert_eq!(&dst[4..], &[u64::MAX; 3][..]);
}

#[test]
fn pack3_places_each_value_at_its_offset() {
    let src: [u64; 3] = [1048575, 429325, 1048575];
    assert!(can_pack(&src, 3, 20));
    assert_eq!(pack3(&src), 0xDFFF_FF68_D0DF_FFFF);
}

#[test]
fn unpack3_reads_each_value_back() {
    let expected: [u64; 3] = [1048575, 429325, 1048575];
    let mut dst = [u64::MAX; 6];
    unpack3(0xDFFF_FF68_D0DF_FFFF, &mut dst);
    assert_eq!(&dst[..3], &expected[..]);
    assert_eq!(&dst[3..], &[u64::MAX; 3][..]);
}

#[test]
fn pack2_places_each_value_at_its_offset() {
    let src: [u64; 2] = [1073741823, 0];
    assert!(can_pack(&src, 2, 30));
    assert_eq!(pack2(&src), 0xE000_0000_3FFF_FFFF);
}

#[test]
fn unpack2_reads_each_value_back() {
    let expected: [u64; 2] = [1073741823, 0];
    let mut dst = [u64::MAX; 5];
    unpack2(0xE000_0000_3FFF_FFFF, &mut dst);
    assert_eq!(&dst[..2], &expected[..]);
    assert_eq!(&dst[2..], &[u64::MAX; 3][..]);
}

#[test]
fn pack1_places_each_value_at_its_offset() {
    let src: [u64; 1] = [1152921504606846975];
    assert!(can_pack(&src, 1, 60));
    assert_eq!(pack1(&src), 0xFFFF_FFFF_FFFF_FFFF);
}

#[test]
fn unpack1_reads_each_value_back() {
    let expected: [u64; 1] = [1152921504606846975];
    let mut dst = [u64::MAX; 4];
    unpack1(0xFFFF_FFFF_FFFF_FFFF, &mut dst);
    assert_eq!(&dst[..1], &expected[..]);
    assert_eq!(&dst[1..], &[u64::MAX; 3][..]);
}

#[test]
fn pack_takes_only_the_head_of_a_longer_buffer() {
    let src = [3u64, 2, 1, 0, 9, 9, 9];
    assert_eq!(pack4(&src), 0xC000_0000_4001_0003);
    assert_eq!(pack2(&src), 0xE000_0000_8000_0003);
    assert_eq!(pack1(&src), 0xF000_0000_0000_0003);
}

#[test]
fn unpack_ignores_the_selector_bits() {
    let mut a = [0u64; 2];
    let mut b = [0u64; 2];
    unpack2(0xE000_0000_8000_0003, &mut a);
    unpack2(0x0000_0000_8000_0003, &mut b);
    assert_eq!(a, [3, 2]);
    assert_eq!(a, b);
}

#[test]
fn can_pack_needs_enough_values() {
    let src = [1u64; 59];
    assert!(!can_pack(&src, 60, 1));
    assert!(!can_pack(&src, 60, 0));
    assert!(!can_pack(&src, 60, 60));
    assert!(can_pack(&src, 59, 1));
    assert!(!can_pack(&[], 1, 60));
    assert!(can_pack(&[], 0, 0));
}

#[test]
fn can_pack_width_bound_is_exact() {
    for bits in 1..=60usize {
        let max = (1u64 << bits) - 1;
        assert!(can_pack(&[0, max, 1], 3, bits));
        assert!(!can_pack(&[0, max + 1, 1], 3, bits));
        assert!(can_pack(&[0, max + 1, 1], 1, bits));
        assert!(!can_pack(&[0, 1, max + 1], 3, bits));
    }
}

#[test]
fn can_pack_at_width_zero_takes_ones_only() {
    assert!(can_pack(&[1, 1, 1], 3, 0));
    assert!(!can_pack(&[1, 0, 1], 3, 0));
    assert!(!can_pack(&[1, 1, 2], 3, 0));
    assert!(can_pack(&[1, 1, 2], 2, 0));
}

#[test]
fn can_pack_at_width_of_a_full_word_takes_everything() {
    assert!(can_pack(&[u64::MAX, 0], 2, 64));
    assert!(can_pack(&[u64::MAX, 0], 2, 200));
    assert!(!can_pack(&[u64::MAX, 0], 3, 64));
    assert!(can_pack(&[(1 << 63) - 1], 1, 63));
    assert!(!can_pack(&[1 << 63], 1, 63));
}
