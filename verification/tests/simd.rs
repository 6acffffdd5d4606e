use purecv::cvcore::simd::{
    simd_bgr_to_gray_u8, simd_bgra_to_gray_u8, simd_rgb_to_gray_u8, simd_rgba_to_gray_u8,
    SimdElement,
};
use purecv::cvcore::types::Depth;

#[test]
fn test_has_simd_default_types() {
    assert!(!i8::has_simd());
    assert!(!i16::has_simd());
    assert!(!u16::has_simd());
    assert!(!i32::has_simd());
    assert!(!u32::has_simd());
    assert!(!i64::has_simd());
    assert!(!u64::has_simd());
}

#[test]
fn test_has_simd_for_f32() {
    assert!(Depth::F32.has_simd());
}

#[test]
fn test_has_simd_for_f64() {
    assert!(Depth::F64.has_simd());
}

#[test]
fn test_has_simd_for_u8() {
    assert!(u8::has_simd());
}

#[test]
fn test_simd_add_u8_saturating() {
    let a = vec![200u8, 100, 50, 0];
    let b = vec![100u8, 200, 50, 0];
    let mut dst = vec![0u8; 4];
    u8::simd_add(&mut dst, &a, &b);
    assert_eq!(dst, vec![255, 255, 100, 0]);
}

#[test]
fn test_simd_rgb_to_gray() {
    let rgb = vec![255, 0, 0, 0, 255, 0, 0, 0, 255];
    let mut gray = vec![0u8; 3];
    simd_rgb_to_gray_u8(&mut gray, &rgb);
    assert_eq!(gray[0], 77);
    assert_eq!(gray[1], 149);
    assert_eq!(gray[2], 29);
}

#[test]
fn test_simd_threshold_binary_u8() {
    let src = vec![10u8, 100, 128, 200, 255, 50];
    let mut dst = vec![0u8; 6];
    assert!(u8::simd_threshold(&mut dst, &src, 127, 255, 0));
    assert_eq!(dst, vec![0, 0, 255, 255, 255, 0]);
}

#[test]
fn test_simd_threshold_binary_inv_u8() {
    let src = vec![10u8, 100, 128, 200, 255, 50];
    let mut dst = vec![0u8; 6];
    assert!(u8::simd_threshold(&mut dst, &src, 127, 255, 1));
    assert_eq!(dst, vec![255, 255, 0, 0, 0, 255]);
}

#[test]
fn test_simd_threshold_trunc_u8() {
    let src = vec![10u8, 100, 128, 200, 255, 50];
    let mut dst = vec![0u8; 6];
    assert!(u8::simd_threshold(&mut dst, &src, 127, 255, 2));
    assert_eq!(dst, vec![10, 100, 127, 127, 127, 50]);
}

#[test]
fn test_simd_threshold_tozero_u8() {
    let src = vec![10u8, 100, 128, 200, 255, 50];
    let mut dst = vec![0u8; 6];
    assert!(u8::simd_threshold(&mut dst, &src, 127, 255, 3));
    assert_eq!(dst, vec![0, 0, 128, 200, 255, 0]);
}

#[test]
fn test_simd_threshold_tozero_inv_u8() {
    let src = vec![10u8, 100, 128, 200, 255, 50];
    let mut dst = vec![0u8; 6];
    assert!(u8::simd_threshold(&mut dst, &src, 127, 255, 4));
    assert_eq!(dst, vec![10, 100, 0, 0, 0, 50]);
}

#[test]
fn test_simd_threshold_invalid_type() {
    let src = vec![10u8; 4];
    let mut dst = vec![0u8; 4];
    assert!(!u8::simd_threshold(&mut dst, &src, 127, 255, 5));
}

#[test]
fn test_simd_vs_scalar_add_u8_equiv() {
    let a: Vec<u8> = (0..256).map(|i| i as u8).collect();
    let b: Vec<u8> = (0..256).map(|i| (255 - i) as u8).collect();
    let expected: Vec<u8> = a
        .iter()
        .zip(b.iter())
        .map(|(&x, &y)| x.saturating_add(y))
        .collect();
    let mut simd_result = vec![0u8; 256];
    assert!(u8::simd_add(&mut simd_result, &a, &b));
    assert_eq!(simd_result, expected);
}

#[test]
fn test_simd_vs_scalar_sub_u8_equiv() {
    let a: Vec<u8> = (0..256).map(|i| i as u8).collect();
    let b: Vec<u8> = (0..256).map(|i| (i / 2) as u8).collect();
    let expected: Vec<u8> = a
        .iter()
        .zip(b.iter())
        .map(|(&x, &y)| x.saturating_sub(y))
        .collect();
    let mut simd_result = vec![0u8; 256];
    assert!(u8::simd_sub(&mut simd_result, &a, &b));
    assert_eq!(simd_result, expected);
}

#[test]
fn test_simd_vs_scalar_sum_u8_equiv() {
    let src: Vec<u8> = (0..1024).map(|i| (i % 256) as u8).collect();
    let expected: f64 = src.iter().map(|&v| v as f64).sum();
    let simd_result = u8::simd_sum(&src).unwrap() as f64;
    assert!(
        (expected - simd_result).abs() < 1e-10,
        "u8 sum mismatch: expected {expected}, got {simd_result}"
    );
}

// ---------------------------------------------------------------------------
// Further cases
// ---------------------------------------------------------------------------

#[test]
fn depth_has_simd_only_for_kernel_depths() {
    assert!(Depth::U8.has_simd());
    assert!(!Depth::I8.has_simd());
    assert!(!Depth::U16.has_simd());
    assert!(!Depth::I16.has_simd());
    assert!(!Depth::I32.has_simd());
    assert!(!Depth::U32.has_simd());
    assert!(!Depth::I64.has_simd());
    assert!(!Depth::U64.has_simd());
}

#[test]
fn depth_of_element_types() {
    assert_eq!(u8::depth(), Depth::U8);
    assert_eq!(i16::depth(), Depth::I16);
    assert_eq!(u64::depth(), Depth::U64);
}

#[test]
fn kernels_without_simd_leave_dst_untouched() {
    let a = vec![1i16, 2, 3];
    let b = vec![4i16, 5, 6];
    let mut dst = vec![7i16; 3];
    assert!(!i16::simd_add(&mut dst, &a, &b));
    assert!(!i16::simd_sub(&mut dst, &a, &b));
    assert!(!i16::simd_mul(&mut dst, &a, &b));
    assert!(!i16::simd_div(&mut dst, &a, &b));
    assert!(!i16::simd_min(&mut dst, &a, &b));
    assert!(!i16::simd_max(&mut dst, &a, &b));
    assert!(!i16::simd_sqrt(&mut dst, &a));
    assert!(!i16::simd_abs(&mut dst, &a));
    assert!(!i16::simd_magnitude(&mut dst, &a, &b));
    assert!(!i16::simd_threshold(&mut dst, &a, 1, 9, 0));
    assert_eq!(i16::simd_sum(&a), None);
    assert_eq!(dst, vec![7, 7, 7]);
}

#[test]
fn u8_kernels_without_override_decline() {
    let a = vec![1u8, 2];
    let mut dst = vec![9u8; 2];
    assert!(!u8::simd_mul(&mut dst, &a, &a));
    assert!(!u8::simd_div(&mut dst, &a, &a));
    assert!(!u8::simd_sqrt(&mut dst, &a));
    assert!(!u8::simd_abs(&mut dst, &a));
    assert!(!u8::simd_magnitude(&mut dst, &a, &a));
    assert_eq!(dst, vec![9, 9]);
}

#[test]
fn u8_sub_saturates_at_zero() {
    let a = vec![10u8, 0, 255, 5];
    let b = vec![20u8, 1, 255, 2];
    let mut dst = vec![0u8; 4];
    assert!(u8::simd_sub(&mut dst, &a, &b));
    assert_eq!(dst, vec![0, 0, 0, 3]);
}

#[test]
fn u8_min_max_partition_the_sum() {
    let a = vec![3u8, 200, 7, 0];
    let b = vec![9u8, 100, 7, 255];
    let mut lo = vec![0u8; 4];
    let mut hi = vec![0u8; 4];
    assert!(u8::simd_min(&mut lo, &a, &b));
    assert!(u8::simd_max(&mut hi, &a, &b));
    assert_eq!(lo, vec![3, 100, 7, 0]);
    assert_eq!(hi, vec![9, 200, 7, 255]);
    for i in 0..4 {
        assert_eq!(lo[i] as u32 + hi[i] as u32, a[i] as u32 + b[i] as u32);
    }
}

#[test]
fn u8_kernel_uses_only_dst_length() {
    let a = vec![1u8, 2, 3, 4, 5];
    let b = vec![10u8, 20, 30, 40, 50];
    let mut dst = vec![0u8; 2];
    assert!(u8::simd_add(&mut dst, &a, &b));
    assert_eq!(dst, vec![11, 22]);
}

#[test]
fn u8_sum_of_empty_is_zero() {
    let src: Vec<u8> = Vec::new();
    assert_eq!(u8::simd_sum(&src), Some(0));
    assert_eq!(u8::simd_sum(&[255, 255, 3]), Some(513));
}

#[test]
fn threshold_binary_and_inverse_split_maxval() {
    let src = vec![0u8, 99, 100, 101, 255];
    let mut bin = vec![0u8; 5];
    let mut inv = vec![0u8; 5];
    assert!(u8::simd_threshold(&mut bin, &src, 100, 200, 0));
    assert!(u8::simd_threshold(&mut inv, &src, 100, 200, 1));
    for i in 0..5 {
        assert_eq!(bin[i] as u32 + inv[i] as u32, 200);
    }
    let mut tz = vec![0u8; 5];
    let mut tzi = vec![0u8; 5];
    assert!(u8::simd_threshold(&mut tz, &src, 100, 200, 3));
    assert!(u8::simd_threshold(&mut tzi, &src, 100, 200, 4));
    for i in 0..5 {
        assert_eq!(tz[i] as u32 + tzi[i] as u32, src[i] as u32);
    }
}

#[test]
fn invalid_threshold_type_leaves_dst() {
    let src = vec![10u8; 3];
    let mut dst = vec![42u8; 3];
    assert!(!u8::simd_threshold(&mut dst, &src, 1, 2, 200));
    assert_eq!(dst, vec![42, 42, 42]);
}

#[test]
fn gray_of_neutral_pixels_keeps_level() {
    let rgb = vec![0u8, 0, 0, 17, 17, 17, 128, 128, 128, 255, 255, 255];
    let mut gray = vec![0u8; 4];
    simd_rgb_to_gray_u8(&mut gray, &rgb);
    assert_eq!(gray, vec![0, 17, 128, 255]);
}

#[test]
fn bgr_and_rgb_orders_agree() {
    let rgb = vec![10u8, 200, 30, 255, 0, 0];
    let bgr = vec![30u8, 200, 10, 0, 0, 255];
    let mut g1 = vec![0u8; 2];
    let mut g2 = vec![0u8; 2];
    simd_rgb_to_gray_u8(&mut g1, &rgb);
    simd_bgr_to_gray_u8(&mut g2, &bgr);
    assert_eq!(g1, g2);
    assert_eq!(g1[1], 77);
    // (77*10 + 150*200 + 29*30 + 128) >> 8 = 31768 >> 8 = 124
    assert_eq!(g1[0], 124);
}

#[test]
fn four_channel_orders_ignore_alpha() {
    let rgba = vec![255u8, 0, 0, 9, 0, 255, 0, 200];
    let bgra = vec![0u8, 0, 255, 1, 0, 255, 0, 77];
    let mut g1 = vec![0u8; 2];
    let mut g2 = vec![0u8; 2];
    simd_rgba_to_gray_u8(&mut g1, &rgba);
    simd_bgra_to_gray_u8(&mut g2, &bgra);
    assert_eq!(g1, vec![77, 149]);
    assert_eq!(g2, vec![77, 149]);
}
