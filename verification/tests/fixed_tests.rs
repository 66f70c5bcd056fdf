use typf::fixed::F26Dot6;

#[test]
fn fixed_test_constants() {
    assert_eq!(F26Dot6::zero().raw(), 0);
    assert_eq!(F26Dot6::one().raw(), 64);
    assert_eq!(F26Dot6::half().raw(), 32);
}

#[test]
fn fixed_test_from_int() {
    assert_eq!(F26Dot6::from_int(0).raw(), 0);
    assert_eq!(F26Dot6::from_int(1).raw(), 64);
    assert_eq!(F26Dot6::from_int(5).raw(), 320);
    assert_eq!(F26Dot6::from_int(-3).raw(), -192);
}

#[test]
fn fixed_test_comparison() {
    let a = F26Dot6::from_int(5);
    let b = F26Dot6::from_int(3);
    assert!(a > b);
    assert!(b < a);
    assert_eq!(a, a);
}

#[test]
fn fixed_test_precision() {
    for i in 0..64 {
        let f = F26Dot6::from_raw(i);
        assert_eq!(f.frac(), i);
    }
}

#[test]
fn fixed_test_overflow_safety() {
    let large = F26Dot6::from_int(10000);
    let small = F26Dot6::from_int(2);
    let result = large.mul(small);
    assert_eq!(result.to_int(), 20000);
}

#[test]
fn fixed_to_int_floors_toward_negative_infinity() {
    // 5.75 and -3.25 in 26.6
    assert_eq!(F26Dot6::from_raw(368).to_int(), 5);
    assert_eq!(F26Dot6::from_raw(-208).to_int(), -4);
}

#[test]
fn fixed_to_int_round_halves_up() {
    assert_eq!(F26Dot6::from_raw(336).to_int_round(), 5); // 5.25
    assert_eq!(F26Dot6::from_raw(352).to_int_round(), 6); // 5.5
    assert_eq!(F26Dot6::from_raw(-208).to_int_round(), -3); // -3.25
    assert_eq!(F26Dot6::from_raw(-224).to_int_round(), -3); // -3.5
    assert_eq!(F26Dot6::from_raw(-240).to_int_round(), -4); // -3.75
}

#[test]
fn fixed_frac_of_quarters() {
    assert_eq!(F26Dot6::from_raw(320).frac(), 0);
    assert_eq!(F26Dot6::from_raw(352).frac(), 32);
    assert_eq!(F26Dot6::from_raw(336).frac(), 16);
    assert_eq!(F26Dot6::from_raw(-208).frac(), 48);
}

#[test]
fn fixed_arithmetic_operators() {
    let a = F26Dot6::from_int(3);
    let b = F26Dot6::from_int(2);
    assert_eq!((a + b).to_int(), 5);
    assert_eq!((a - b).to_int(), 1);
    assert_eq!((-a).to_int(), -3);
    let c: F26Dot6 = 7i32.into();
    assert_eq!(c.raw(), 448);
}

#[test]
fn fixed_mul_and_div() {
    assert_eq!(F26Dot6::from_int(3).mul(F26Dot6::from_int(4)).to_int(), 12);
    assert_eq!(F26Dot6::from_raw(160).mul(F26Dot6::from_int(4)).raw(), 640); // 2.5 * 4
    assert_eq!(F26Dot6::from_int(12).div(F26Dot6::from_int(4)).to_int(), 3);
    assert_eq!(F26Dot6::from_int(10).div(F26Dot6::from_int(4)).raw(), 160); // 2.5
    // truncation toward zero
    assert_eq!(F26Dot6::from_raw(-1).div(F26Dot6::from_raw(3)).raw(), -21);
}

#[test]
fn fixed_abs_floor_ceil() {
    assert_eq!(F26Dot6::from_int(-5).abs().to_int(), 5);
    assert_eq!(F26Dot6::from_raw(-224).abs().raw(), 224);
    assert_eq!(F26Dot6::from_raw(368).floor().to_int(), 5); // 5.75
    assert_eq!(F26Dot6::from_raw(-208).floor().to_int(), -4); // -3.25
    assert_eq!(F26Dot6::from_raw(336).ceil().to_int(), 6); // 5.25
    assert_eq!(F26Dot6::from_int(5).ceil().to_int(), 5);
    assert_eq!(F26Dot6::from_raw(-240).ceil().to_int(), -3); // -3.75
}
