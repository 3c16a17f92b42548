use argmin_testfunctions::{greater, greater_complex, lesser, lesser_complex, ArgminMinMax};
use num_complex::Complex;

#[test]
fn test_minmax_i8() {
    let x = 5 as i8;
    let y = 10 as i8;
    assert_eq!(<i8 as ArgminMinMax>::min(&x, &y), x);
    assert_eq!(<i8 as ArgminMinMax>::max(&x, &y), y);
    assert_eq!(<i8 as ArgminMinMax>::min(&y, &x), x);
    assert_eq!(<i8 as ArgminMinMax>::max(&y, &x), y);
}

#[test]
fn test_minmax_i16() {
    let x = 5 as i16;
    let y = 10 as i16;
    assert_eq!(<i16 as ArgminMinMax>::min(&x, &y), x);
    assert_eq!(<i16 as ArgminMinMax>::max(&x, &y), y);
    assert_eq!(<i16 as ArgminMinMax>::min(&y, &x), x);
    assert_eq!(<i16 as ArgminMinMax>::max(&y, &x), y);
}

#[test]
fn test_minmax_i32() {
    let x = 5 as i32;
    let y = 10 as i32;
    assert_eq!(<i32 as ArgminMinMax>::min(&x, &y), x);
    assert_eq!(<i32 as ArgminMinMax>::max(&x, &y), y);
    assert_eq!(<i32 as ArgminMinMax>::min(&y, &x), x);
    assert_eq!(<i32 as ArgminMinMax>::max(&y, &x), y);
}

#[test]
fn test_minmax_i64() {
    let x = 5 as i64;
    let y = 10 as i64;
    assert_eq!(<i64 as ArgminMinMax>::min(&x, &y), x);
    assert_eq!(<i64 as ArgminMinMax>::max(&x, &y), y);
    assert_eq!(<i64 as ArgminMinMax>::min(&y, &x), x);
    assert_eq!(<i64 as ArgminMinMax>::max(&y, &x), y);
}

#[test]
fn test_minmax_u8() {
    let x = 5 as u8;
    let y = 10 as u8;
    assert_eq!(<u8 as ArgminMinMax>::min(&x, &y), x);
    assert_eq!(<u8 as ArgminMinMax>::max(&x, &y), y);
    assert_eq!(<u8 as ArgminMinMax>::min(&y, &x), x);
    assert_eq!(<u8 as ArgminMinMax>::max(&y, &x), y);
}

#[test]
fn test_minmax_u16() {
    let x = 5 as u16;
    let y = 10 as u16;
    assert_eq!(<u16 as ArgminMinMax>::min(&x, &y), x);
    assert_eq!(<u16 as ArgminMinMax>::max(&x, &y), y);
    assert_eq!(<u16 as ArgminMinMax>::min(&y, &x), x);
    assert_eq!(<u16 as ArgminMinMax>::max(&y, &x), y);
}

#[test]
fn test_minmax_u32() {
    let x = 5 as u32;
    let y = 10 as u32;
    assert_eq!(<u32 as ArgminMinMax>::min(&x, &y), x);
    assert_eq!(<u32 as ArgminMinMax>::max(&x, &y), y);
    assert_eq!(<u32 as ArgminMinMax>::min(&y, &x), x);
    assert_eq!(<u32 as ArgminMinMax>::max(&y, &x), y);
}

#[test]
fn test_minmax_u64() {
    let x = 5 as u64;
    let y = 10 as u64;
    assert_eq!(<u64 as ArgminMinMax>::min(&x, &y), x);
    assert_eq!(<u64 as ArgminMinMax>::max(&x, &y), y);
    assert_eq!(<u64 as ArgminMinMax>::min(&y, &x), x);
    assert_eq!(<u64 as ArgminMinMax>::max(&y, &x), y);
}

#[test]
fn test_minmax_complex_i8() {
    let x = Complex::new(5 as i8, 10 as i8);
    let y = Complex::new(10 as i8, 5 as i8);
    assert_eq!(<Complex<i8> as ArgminMinMax>::min(&x, &y), x);
    assert_eq!(<Complex<i8> as ArgminMinMax>::max(&x, &y), y);
    assert_eq!(<Complex<i8> as ArgminMinMax>::min(&y, &x), x);
    assert_eq!(<Complex<i8> as ArgminMinMax>::max(&y, &x), y);
}

#[test]
fn test_minmax_complex_i16() {
    let x = Complex::new(5 as i16, 10 as i16);
    let y = Complex::new(10 as i16, 5 as i16);
    assert_eq!(<Complex<i16> as ArgminMinMax>::min(&x, &y), x);
    assert_eq!(<Complex<i16> as ArgminMinMax>::max(&x, &y), y);
    assert_eq!(<Complex<i16> as ArgminMinMax>::min(&y, &x), x);
    assert_eq!(<Complex<i16> as ArgminMinMax>::max(&y, &x), y);
}

#[test]
fn test_minmax_complex_i32() {
    let x = Complex::new(5 as i32, 10 as i32);
    let y = Complex::new(10 as i32, 5 as i32);
    assert_eq!(<Complex<i32> as ArgminMinMax>::min(&x, &y), x);
    assert_eq!(<Complex<i32> as ArgminMinMax>::max(&x, &y), y);
    assert_eq!(<Complex<i32> as ArgminMinMax>::min(&y, &x), x);
    assert_eq!(<Complex<i32> as ArgminMinMax>::max(&y, &x), y);
}

#[test]
fn test_minmax_complex_i64() {
    let x = Complex::new(5 as i64, 10 as i64);
    let y = Complex::new(10 as i64, 5 as i64);
    assert_eq!(<Complex<i64> as ArgminMinMax>::min(&x, &y), x);
    assert_eq!(<Complex<i64> as ArgminMinMax>::max(&x, &y), y);
    assert_eq!(<Complex<i64> as ArgminMinMax>::min(&y, &x), x);
    assert_eq!(<Complex<i64> as ArgminMinMax>::max(&y, &x), y);
}

#[test]
fn test_minmax_complex_u8() {
    let x = Complex::new(5 as u8, 10 as u8);
    let y = Complex::new(10 as u8, 5 as u8);
    assert_eq!(<Complex<u8> as ArgminMinMax>::min(&x, &y), x);
    assert_eq!(<Complex<u8> as ArgminMinMax>::max(&x, &y), y);
    assert_eq!(<Complex<u8> as ArgminMinMax>::min(&y, &x), x);
    assert_eq!(<Complex<u8> as ArgminMinMax>::max(&y, &x), y);
}

#[test]
fn test_minmax_complex_u16() {
    let x = Complex::new(5 as u16, 10 as u16);
    let y = Complex::new(10 as u16, 5 as u16);
    assert_eq!(<Complex<u16> as ArgminMinMax>::min(&x, &y), x);
    assert_eq!(<Complex<u16> as ArgminMinMax>::max(&x, &y), y);
    assert_eq!(<Complex<u16> as ArgminMinMax>::min(&y, &x), x);
    assert_eq!(<Complex<u16> as ArgminMinMax>::max(&y, &x), y);
}

#[test]
fn test_minmax_complex_u32() {
    let x = Complex::new(5 as u32, 10 as u32);
    let y = Complex::new(10 as u32, 5 as u32);
    assert_eq!(<Complex<u32> as ArgminMinMax>::min(&x, &y), x);
    assert_eq!(<Complex<u32> as ArgminMinMax>::max(&x, &y), y);
    assert_eq!(<Complex<u32> as ArgminMinMax>::min(&y, &x), x);
    assert_eq!(<Complex<u32> as ArgminMinMax>::max(&y, &x), y);
}

#[test]
fn test_minmax_complex_u64() {
    let x = Complex::new(5 as u64, 10 as u64);
    let y = Complex::new(10 as u64, 5 as u64);
    assert_eq!(<Complex<u64> as ArgminMinMax>::min(&x, &y), x);
    assert_eq!(<Complex<u64> as ArgminMinMax>::max(&x, &y), y);
    assert_eq!(<Complex<u64> as ArgminMinMax>::min(&y, &x), x);
    assert_eq!(<Complex<u64> as ArgminMinMax>::max(&y, &x), y);
}

#[test]
fn minmax_of_equal_numbers() {
    assert_eq!(<i32 as ArgminMinMax>::min(&-3, &-3), -3);
    assert_eq!(<i32 as ArgminMinMax>::max(&-3, &-3), -3);
    let z = Complex::new(2_i16, -2_i16);
    assert_eq!(<Complex<i16> as ArgminMinMax>::min(&z, &z), z);
    assert_eq!(<Complex<i16> as ArgminMinMax>::max(&z, &z), z);
}

#[test]
fn minmax_at_the_ends_of_the_range() {
    assert_eq!(<i8 as ArgminMinMax>::min(&i8::MIN, &i8::MAX), i8::MIN);
    assert_eq!(<i8 as ArgminMinMax>::max(&i8::MIN, &i8::MAX), i8::MAX);
    assert_eq!(<u64 as ArgminMinMax>::min(&u64::MAX, &0), 0);
    assert_eq!(<u64 as ArgminMinMax>::max(&u64::MAX, &0), u64::MAX);
    assert_eq!(<i64 as ArgminMinMax>::min(&-1, &0), -1);
    assert_eq!(<i64 as ArgminMinMax>::max(&-1, &0), 0);
}

#[test]
fn minmax_of_complex_numbers_goes_by_the_real_part_first() {
    let x = Complex::new(-1_i32, 100_i32);
    let y = Complex::new(0_i32, -100_i32);
    assert_eq!(<Complex<i32> as ArgminMinMax>::min(&x, &y), x);
    assert_eq!(<Complex<i32> as ArgminMinMax>::max(&x, &y), y);
    assert_eq!(<Complex<i32> as ArgminMinMax>::min(&y, &x), x);
    assert_eq!(<Complex<i32> as ArgminMinMax>::max(&y, &x), y);
}

#[test]
fn minmax_of_complex_numbers_breaks_ties_by_the_imaginary_part() {
    let x = Complex::new(7_i64, -2_i64);
    let y = Complex::new(7_i64, 3_i64);
    assert_eq!(<Complex<i64> as ArgminMinMax>::min(&x, &y), x);
    assert_eq!(<Complex<i64> as ArgminMinMax>::max(&x, &y), y);
    assert_eq!(<Complex<i64> as ArgminMinMax>::min(&y, &x), x);
    assert_eq!(<Complex<i64> as ArgminMinMax>::max(&y, &x), y);
}

#[test]
fn minmax_does_not_go_by_magnitude() {
    let x = Complex::new(-9_i8, 0_i8);
    let y = Complex::new(1_i8, 0_i8);
    assert_eq!(<Complex<i8> as ArgminMinMax>::min(&x, &y), x);
    assert_eq!(<Complex<i8> as ArgminMinMax>::max(&x, &y), y);
}

#[test]
fn test_minmax_f32() {
    let x = 5 as f32;
    let y = 10 as f32;
    assert_eq!(lesser(&x, &y), x);
    assert_eq!(greater(&x, &y), y);
    assert_eq!(lesser(&y, &x), x);
    assert_eq!(greater(&y, &x), y);
}

#[test]
fn test_minmax_f64() {
    let x = 5 as f64;
    let y = 10 as f64;
    assert_eq!(lesser(&x, &y), x);
    assert_eq!(greater(&x, &y), y);
    assert_eq!(lesser(&y, &x), x);
    assert_eq!(greater(&y, &x), y);
}

#[test]
fn test_minmax_complex_f32() {
    let x = Complex::new(5 as f32, 10 as f32);
    let y = Complex::new(10 as f32, 5 as f32);
    assert_eq!(lesser_complex(&x, &y), x);
    assert_eq!(greater_complex(&x, &y), y);
    assert_eq!(lesser_complex(&y, &x), x);
    assert_eq!(greater_complex(&y, &x), y);
}

#[test]
fn test_minmax_complex_f64() {
    let x = Complex::new(5 as f64, -1 as f64);
    let y = Complex::new(5 as f64, 1 as f64);
    assert_eq!(lesser_complex(&x, &y), x);
    assert_eq!(greater_complex(&x, &y), y);
    assert_eq!(lesser_complex(&y, &x), x);
    assert_eq!(greater_complex(&y, &x), y);
}

#[test]
fn minmax_of_floats_with_a_nan() {
    let nan = f64::NAN;
    assert_eq!(lesser(&1.0, &nan), 1.0);
    assert!(lesser(&nan, &1.0).is_nan());
    assert!(greater(&1.0, &nan).is_nan());
    assert_eq!(greater(&nan, &1.0), 1.0);
}

#[test]
fn minmax_of_the_two_zeros() {
    assert!(lesser(&0.0_f64, &-0.0_f64).is_sign_positive());
    assert!(lesser(&-0.0_f64, &0.0_f64).is_sign_negative());
    assert!(greater(&0.0_f64, &-0.0_f64).is_sign_negative());
    assert!(greater(&-0.0_f64, &0.0_f64).is_sign_positive());
}

#[test]
fn lesser_and_greater_of_integers() {
    assert_eq!(lesser(&-3_i32, &4), -3);
    assert_eq!(greater(&-3_i32, &4), 4);
    assert_eq!(lesser(&4_u8, &3), 3);
    assert_eq!(greater(&4_u8, &3), 4);
}
