use faster_chars_count::lead::count_u8;
use faster_chars_count::pack::{load_u32, load_u64, pack_u32, pack_u64};
use faster_chars_count::split::{align_split, split_regions, AlignmentSplit};
use faster_chars_count::reduce::{avx2_horizontal_sum_epi8, _MM_SHUFFLE};
use faster_chars_count::vector::{
    add_epi16, extract_epi64, gt_epi8, load_256, pack_256, permute2x128, shuffle_epi32,
    signed_gt, sub_epi8, unpackhi_epi8, unpacklo_epi8, Vector256, THRESHOLD,
};
use faster_chars_count::vector_plane::{count_256, CHUNK};
use faster_chars_count::word::{
    count_u128, count_u32, count_u64, count_usize, leads_in_u128, leads_in_u32, leads_in_u64,
    leads_in_usize, MASK_U128, MASK_U32, MASK_U64, MASK_USIZE,
};

fn ramp() -> Vector256 {
    let mut bytes = [0u8; 32];
    for i in 0..32 {
        bytes[i] = i as u8;
    }
    Vector256 { bytes }
}

fn text_bytes(len: usize) -> Vec<u8> {
    let mut text = String::new();
    while text.len() < len {
        text.push_str("a\u{e9}\u{9306}\u{1f600}");
    }
    text.as_bytes()[..len].to_vec()
}

#[test]
fn masks_select_bit_six_of_every_byte() {
    assert_eq!(MASK_U32, 0x4040_4040);
    assert_eq!(MASK_U64, 0x4040_4040_4040_4040);
    assert_eq!(MASK_U128, 0x4040_4040_4040_4040_4040_4040_4040_4040);
    assert_eq!(MASK_USIZE.to_ne_bytes(), [0x40u8; std::mem::size_of::<usize>()]);
}

#[test]
fn one_word_counts_its_leading_bytes() {
    assert_eq!(leads_in_u32(0), 4);
    assert_eq!(leads_in_u32(0x8080_8080), 0);
    assert_eq!(leads_in_u32(0xBF80_C07F), 2);
    assert_eq!(leads_in_u64(0), 8);
    assert_eq!(leads_in_u64(u64::MAX), 8);
    assert_eq!(leads_in_u64(0x8080_8080_8080_8080), 0);
    assert_eq!(leads_in_u64(0x80BF_0080_C0FF_7F9A), 4);
    assert_eq!(leads_in_u128(0), 16);
    assert_eq!(leads_in_u128(0x8080_8080_8080_8080_8080_8080_8080_8080), 0);
    assert_eq!(leads_in_u128(0x80 << 120), 15);
    assert_eq!(leads_in_usize(0), std::mem::size_of::<usize>() as u32);
    assert_eq!(leads_in_usize(0x80), std::mem::size_of::<usize>() as u32 - 1);
}

#[test]
fn word_planes_agree_with_the_byte_plane() {
    let bytes = text_bytes(160);
    let expected = count_u8(&bytes);
    let w32: Vec<u32> =
        bytes.chunks(4).map(|c| u32::from_le_bytes([c[0], c[1], c[2], c[3]])).collect();
    let w64: Vec<u64> = bytes
        .chunks(8)
        .map(|c| u64::from_le_bytes([c[0], c[1], c[2], c[3], c[4], c[5], c[6], c[7]]))
        .collect();
    let w128: Vec<u128> = bytes
        .chunks(16)
        .map(|c| {
            let mut lanes = [0u8; 16];
            lanes.copy_from_slice(c);
            u128::from_le_bytes(lanes)
        })
        .collect();
    let native: Vec<usize> = bytes
        .chunks(std::mem::size_of::<usize>())
        .map(|c| {
            let mut lanes = [0u8; std::mem::size_of::<usize>()];
            lanes.copy_from_slice(c);
            usize::from_le_bytes(lanes)
        })
        .collect();
    let vectors: Vec<Vector256> = bytes
        .chunks(32)
        .map(|c| {
            let mut lanes = [0u8; 32];
            lanes.copy_from_slice(c);
            Vector256 { bytes: lanes }
        })
        .collect();
    assert_eq!(count_u32(&w32), expected);
    assert_eq!(count_u64(&w64), expected);
    assert_eq!(count_u128(&w128), expected);
    assert_eq!(count_usize(&native), expected);
    assert_eq!(count_256(&vectors), expected);
}

#[test]
fn empty_planes_count_zero() {
    assert_eq!(count_u8(&[]), 0);
    assert_eq!(count_u32(&[]), 0);
    assert_eq!(count_u64(&[]), 0);
    assert_eq!(count_u128(&[]), 0);
    assert_eq!(count_usize(&[]), 0);
    assert_eq!(count_256(&[]), 0);
}

#[test]
fn words_are_read_lowest_byte_first() {
    let bytes = [0x01u8, 0x02, 0x03, 0x04, 0x05, 0x06, 0x07, 0x08, 0x09];
    assert_eq!(load_u32(&bytes, 0), 0x0403_0201);
    assert_eq!(load_u32(&bytes, 5), 0x0908_0706);
    assert_eq!(load_u64(&bytes, 0), 0x0807_0605_0403_0201);
    assert_eq!(load_u64(&bytes, 1), 0x0908_0706_0504_0302);
    assert_eq!(pack_u32(&bytes[..8]), vec![0x0403_0201, 0x0807_0605]);
    assert_eq!(pack_u64(&bytes[..8]), vec![0x0807_0605_0403_0201]);
    assert_eq!(pack_u64(&[]), Vec::<u64>::new());
}

#[test]
fn vectors_are_read_in_order() {
    let bytes = text_bytes(70);
    let v = load_256(&bytes, 3);
    assert_eq!(&v.bytes[..], &bytes[3..35]);
    let vs = pack_256(&bytes[..64]);
    assert_eq!(vs.len(), 2);
    assert_eq!(&vs[0].bytes[..], &bytes[..32]);
    assert_eq!(&vs[1].bytes[..], &bytes[32..64]);
}

#[test]
fn split_lengths() {
    assert_eq!(align_split(22, 1, 8), AlignmentSplit { prefix: 7, units: 1, suffix: 7 });
    assert_eq!(align_split(22, 0, 8), AlignmentSplit { prefix: 0, units: 2, suffix: 6 });
    assert_eq!(align_split(22, 8, 8), AlignmentSplit { prefix: 0, units: 2, suffix: 6 });
    assert_eq!(align_split(5, 6, 8), AlignmentSplit { prefix: 2, units: 0, suffix: 3 });
    assert_eq!(align_split(5, 1, 8), AlignmentSplit { prefix: 5, units: 0, suffix: 0 });
    assert_eq!(align_split(0, 3, 4), AlignmentSplit { prefix: 0, units: 0, suffix: 0 });
    assert_eq!(align_split(320, 31, 32), AlignmentSplit { prefix: 1, units: 9, suffix: 31 });
    assert_eq!(align_split(63, 1, 32), AlignmentSplit { prefix: 31, units: 1, suffix: 0 });
    assert_eq!(align_split(9, usize::MAX, 4), AlignmentSplit { prefix: 1, units: 2, suffix: 0 });
    assert_eq!(align_split(9, 5, 1), AlignmentSplit { prefix: 0, units: 9, suffix: 0 });
}

#[test]
fn a_long_enough_buffer_has_a_middle() {
    for unit in [4usize, 8, 32] {
        for address in 0..2 * unit {
            let split = align_split(2 * unit - 1, address, unit);
            assert!(split.units >= 1);
            assert!(split.prefix < unit && split.suffix < unit);
            assert_eq!(split.prefix + split.units * unit + split.suffix, 2 * unit - 1);
            assert_eq!((address + split.prefix) % unit, 0);
        }
    }
}

#[test]
fn regions_cover_the_buffer() {
    let bytes = text_bytes(50);
    let parts = split_regions(&bytes, 13, 8);
    assert_eq!(parts.prefix, &bytes[..3]);
    assert_eq!(parts.middle, &bytes[3..43]);
    assert_eq!(parts.suffix, &bytes[43..]);
    let parts = split_regions(&bytes[..2], 13, 8);
    assert_eq!(parts.prefix, &bytes[..2]);
    assert!(parts.middle.is_empty() && parts.suffix.is_empty());
}

#[test]
fn shuffle_control_byte() {
    assert_eq!(_MM_SHUFFLE(0, 0, 2, 3), 11);
    assert_eq!(_MM_SHUFFLE(3, 2, 1, 0), 0xE4);
    assert_eq!(_MM_SHUFFLE(1, 0, 3, 2), 0x4E);
    assert_eq!(_MM_SHUFFLE(0, 0, 0, 0), 0);
    assert_eq!(_MM_SHUFFLE(1 << 25, 0, 0, 0), i32::MIN);
}

#[test]
fn signed_lane_comparison() {
    assert_eq!(THRESHOLD, 0xBF);
    assert_eq!(CHUNK, 255);
    for b in 0..=255u8 {
        assert_eq!(signed_gt(b, THRESHOLD), (b as i8) > -0x41);
        assert_eq!(signed_gt(b, THRESHOLD), b & 0xC0 != 0x80);
        for c in [0u8, 1, 0x7F, 0x80, 0xBF, 0xFF] {
            assert_eq!(signed_gt(b, c), (b as i8) > (c as i8));
        }
    }
}

#[test]
fn lane_wise_compare_and_subtract() {
    let mut x = Vector256::zero();
    x.bytes[0] = 0x80;
    x.bytes[1] = 0xBF;
    x.bytes[2] = 0xC0;
    x.bytes[31] = 0xA0;
    let mask = gt_epi8(&x, &Vector256::splat(THRESHOLD));
    let mut expected = [0xFFu8; 32];
    expected[0] = 0;
    expected[1] = 0;
    expected[31] = 0;
    assert_eq!(mask.bytes, expected);
    let sum = sub_epi8(&Vector256::splat(7), &mask);
    let mut expected = [8u8; 32];
    expected[0] = 7;
    expected[1] = 7;
    expected[31] = 7;
    assert_eq!(sum.bytes, expected);
    let wrapped = sub_epi8(&Vector256::zero(), &Vector256::splat(1));
    assert_eq!(wrapped.bytes, [0xFFu8; 32]);
}

#[test]
fn interleaving_takes_eight_bytes_of_each_half() {
    let x = ramp();
    let zero = Vector256::zero();
    let lo = unpacklo_epi8(&x, &zero);
    let hi = unpackhi_epi8(&x, &zero);
    assert_eq!(
        lo.bytes,
        [
            0, 0, 1, 0, 2, 0, 3, 0, 4, 0, 5, 0, 6, 0, 7, 0, 16, 0, 17, 0, 18, 0, 19, 0, 20, 0, 21,
            0, 22, 0, 23, 0
        ]
    );
    assert_eq!(
        hi.bytes,
        [
            8, 0, 9, 0, 10, 0, 11, 0, 12, 0, 13, 0, 14, 0, 15, 0, 24, 0, 25, 0, 26, 0, 27, 0, 28,
            0, 29, 0, 30, 0, 31, 0
        ]
    );
    let both = unpacklo_epi8(&x, &Vector256::splat(9));
    assert_eq!(both.bytes[1], 9);
    assert_eq!(both.bytes[16], 16);
}

#[test]
fn sixteen_bit_lanes_carry_and_wrap() {
    let mut a = Vector256::zero();
    let mut b = Vector256::zero();
    a.bytes[0] = 0xFF;
    b.bytes[0] = 0x01;
    a.bytes[2] = 0xFF;
    a.bytes[3] = 0xFF;
    b.bytes[2] = 0x02;
    a.bytes[30] = 0x10;
    b.bytes[31] = 0x20;
    let sum = add_epi16(&a, &b);
    let mut expected = [0u8; 32];
    expected[0] = 0x00;
    expected[1] = 0x01;
    expected[2] = 0x01;
    expected[3] = 0x00;
    expected[30] = 0x10;
    expected[31] = 0x20;
    assert_eq!(sum.bytes, expected);
}

#[test]
fn halves_are_selected_by_the_control_bits() {
    let a = ramp();
    let b = Vector256::splat(0xEE);
    let swapped = permute2x128(&a, &a, 1);
    assert_eq!(&swapped.bytes[..16], &a.bytes[16..]);
    assert_eq!(&swapped.bytes[16..], &a.bytes[..16]);
    let same = permute2x128(&a, &b, 0x10);
    assert_eq!(same.bytes, a.bytes);
    let mixed = permute2x128(&a, &b, 0x02);
    assert_eq!(&mixed.bytes[..16], &b.bytes[..16]);
    assert_eq!(&mixed.bytes[16..], &a.bytes[..16]);
    let cleared = permute2x128(&a, &b, 0x18);
    assert_eq!(&cleared.bytes[..16], &[0u8; 16]);
    assert_eq!(&cleared.bytes[16..], &a.bytes[16..]);
    let high_b = permute2x128(&a, &b, 0x33);
    assert_eq!(high_b.bytes, b.bytes);
}

#[test]
fn thirty_two_bit_lanes_are_rearranged_in_each_half() {
    let a = ramp();
    let same = shuffle_epi32(&a, 0xE4);
    assert_eq!(same.bytes, a.bytes);
    let folded = shuffle_epi32(&a, _MM_SHUFFLE(0, 0, 2, 3) as u8);
    assert_eq!(
        folded.bytes,
        [
            12, 13, 14, 15, 8, 9, 10, 11, 0, 1, 2, 3, 0, 1, 2, 3, 28, 29, 30, 31, 24, 25, 26, 27,
            16, 17, 18, 19, 16, 17, 18, 19
        ]
    );
}

#[test]
fn sixty_four_bit_lanes_are_taken_out() {
    let a = ramp();
    assert_eq!(extract_epi64(&a, 0), 0x0706_0504_0302_0100);
    assert_eq!(extract_epi64(&a, 1), 0x0F0E_0D0C_0B0A_0908);
    assert_eq!(extract_epi64(&a, 3), 0x1F1E_1D1C_1B1A_1918);
}

#[test]
fn horizontal_sum_adds_all_lanes() {
    assert_eq!(avx2_horizontal_sum_epi8(&Vector256::zero()), 0);
    assert_eq!(avx2_horizontal_sum_epi8(&Vector256::splat(1)), 32);
    assert_eq!(avx2_horizontal_sum_epi8(&Vector256::splat(255)), 8160);
    assert_eq!(avx2_horizontal_sum_epi8(&ramp()), 496);
    for lane in 0..32 {
        let mut x = Vector256::zero();
        x.bytes[lane] = 200;
        assert_eq!(avx2_horizontal_sum_epi8(&x), 200);
    }
}

#[test]
fn vector_plane_counts_across_chunks() {
    let leads = vec![Vector256::splat(b'a'); 600];
    assert_eq!(count_256(&leads), 600 * 32);
    let none = vec![Vector256::splat(0x80); 600];
    assert_eq!(count_256(&none), 0);
    let mut mixed = vec![Vector256::splat(0x80); 255];
    mixed.push(Vector256::splat(0xC3));
    assert_eq!(count_256(&mixed), 32);
    let exact = vec![Vector256::splat(0x00); 255];
    assert_eq!(count_256(&exact), 255 * 32);
    let over = vec![Vector256::splat(0xFF); 256];
    assert_eq!(count_256(&over), 256 * 32);
}
