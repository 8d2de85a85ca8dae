use softfloat::format::Format;
use softfloat::ops::addition::addition;
use softfloat::value::Value;

#[test]
fn addition_addition_basic() {
    let f = Format::ieee754_single();

    let a = Value::from_comps(false, 127, 0, f.clone()); // 1.0
    let b = Value::from_comps(false, 127, 0, f.clone()); // 1.0

    let res = addition(a, b);

    assert_eq!(res.to_bits(), 0x40000000); // 2.0

    let a = Value::from_comps(false, 126, 0, f.clone()); // 0.5
    let b = Value::from_comps(false, 126, 0, f.clone()); // 0.5

    let res = addition(a, b);

    assert_eq!(res.to_bits(), 0x3f800000); // 1.0

    let a = Value::from_comps(false, 127, 0, f.clone()); // 1.0
    let b = Value::from_comps(false, 126, 0, f.clone()); // 0.5

    let res = addition(a, b);

    assert_eq!(res.to_bits(), 0x3fc00000); // 1.5

    let a = Value::from_comps(false, 0, 0, f.clone()); // 0.0
    let b = Value::from_comps(false, 0, 0, f.clone()); // 0.0

    let res = addition(a, b);

    assert_eq!(res.to_bits(), 0x00000000); // 0.0

    let a = Value::from_comps(false, 127, 0, f.clone()); // 1.0
    let b = Value::from_comps(false, 0, 0, f.clone()); // 0.0

    let res = addition(a, b);

    assert_eq!(res.to_bits(), 0x3f800000); // 1.0

    let a = Value::from_comps(false, 0, 0, f.clone()); // 0.0
    let b = Value::from_comps(false, 127, 0, f.clone()); // 1.0

    let res = addition(a, b);

    assert_eq!(res.to_bits(), 0x3f800000); // 1.0

    let a = Value::from_comps(true, 127, 0, f.clone()); // -1.0
    let b = Value::from_comps(true, 127, 0, f.clone()); // -1.0

    let res = addition(a, b);

    assert_eq!(res.to_bits(), 0xc0000000); // -2.0

    let a = Value::from_comps(true, 127, 1 << 22, f.clone()); // -1.5
    let b = Value::from_comps(true, 127, 0, f.clone()); // -1.0

    let res = addition(a, b);

    assert_eq!(res.to_bits(), 0xc0200000); // -2.5

    let a = Value::from_comps(true, 128, 1 << 22, f.clone()); // -3.0
    let b = Value::from_comps(true, 128, 1 << 22, f.clone()); // -3.0

    let res = addition(a, b);

    assert_eq!(res.to_bits(), 0xc0c00000); // -6.0
}

#[test]
fn addition_addition_daz_ftz() {
    let f = Format::ieee754_single();

    let a = Value::from_comps(false, 0, 1337, f.clone()); // any denormalized number
    let b = Value::from_comps(false, 0, 0, f.clone()); // 0.0

    let res = addition(a, b);

    assert_eq!(res.to_bits(), 0x00000000); // 0.0

    let a = Value::from_comps(false, 0, 0, f.clone()); // 0.0
    let b = Value::from_comps(false, 0, 1337, f.clone()); // any denormalized number

    let res = addition(a, b);

    assert_eq!(res.to_bits(), 0x00000000); // 0.0

    let a = Value::from_comps(false, 0, 1337, f.clone()); // any denormalized number
    let b = Value::from_comps(false, 0, 1337, f.clone()); // any denormalized number

    let res = addition(a, b);

    assert_eq!(res.to_bits(), 0x00000000); // 0.0

    let a = Value::from_comps(false, 128, 0, f.clone()); // 2.0
    let b = Value::from_comps(false, 0, 1337, f.clone()); // any denormalized number

    let res = addition(a, b);

    assert_eq!(res.to_bits(), 0x40000000); // 2.0

    let a = Value::from_comps(true, 128, 0, f.clone()); // -2.0
    let b = Value::from_comps(true, 0, 1337, f.clone()); // any negative denormalized number

    let res = addition(a, b);

    assert_eq!(res.to_bits(), 0xc0000000); // -2.0

    let a = Value::from_comps(false, 0, 1337, f.clone()); // any positive denormalized number
    let b = Value::from_comps(true, 0, 1337, f.clone()); // any negative denormalized number

    let res = addition(a, b);

    assert_eq!(res.to_bits(), 0x00000000); // 0.0
}

#[test]
fn addition_addition_non_matching_signs() {
    let f = Format::ieee754_single();

    let a = Value::from_comps(false, 127, 0, f.clone()); // 1.0
    let b = Value::from_comps(true, 127, 0, f.clone()); // -1.0

    let res = addition(a, b);

    assert_eq!(res.to_bits(), 0x00000000); // 0.0

    let a = Value::from_comps(false, 127, 0, f.clone()); // 1.0
    let b = Value::from_comps(false, 0, 0, f.clone()); // 0.0

    let res = addition(a, b);

    assert_eq!(res.to_bits(), 0x3f800000); // 1.0

    let a = Value::from_comps(false, 127, 0, f.clone()); // 1.0
    let b = Value::from_comps(true, 0, 0, f.clone()); // -0.0

    let res = addition(a, b);

    assert_eq!(res.to_bits(), 0x3f800000); // 1.0

    let a = Value::from_comps(false, 0, 0, f.clone()); // 0.0
    let b = Value::from_comps(false, 127, 0, f.clone()); // 1.0

    let res = addition(a, b);

    assert_eq!(res.to_bits(), 0x3f800000); // 1.0

    let a = Value::from_comps(true, 0, 0, f.clone()); // -0.0
    let b = Value::from_comps(false, 127, 0, f.clone()); // 1.0

    let res = addition(a, b);

    assert_eq!(res.to_bits(), 0x3f800000); // 1.0

    let a = Value::from_comps(true, 127, 0, f.clone()); // -1.0
    let b = Value::from_comps(false, 127, 0, f.clone()); // 1.0

    let res = addition(a, b);

    assert_eq!(res.to_bits(), 0x00000000); // 0.0

    let a = Value::from_comps(true, 0, 0, f.clone()); // -0.0
    let b = Value::from_comps(false, 0, 0, f.clone()); // 0.0

    let res = addition(a, b);

    assert_eq!(res.to_bits(), 0x00000000); // 0.0

    let a = Value::from_comps(false, 127, 0, f.clone()); // 1.0
    let b = Value::from_comps(true, 127, 1 << 22, f.clone()); // -1.5

    let res = addition(a, b);

    assert_eq!(res.to_bits(), 0xbf000000); // -0.5

    let a = Value::from_comps(true, 127, 1 << 22, f.clone()); // -1.5
    let b = Value::from_comps(false, 127, 0, f.clone()); // 1.0

    let res = addition(a, b);

    assert_eq!(res.to_bits(), 0xbf000000); // -0.5

    let a = Value::from_comps(false, 142, 0, f.clone()); // 32768.0
    let b = Value::from_comps(true, 142, 1 << 6, f.clone()); // -32768.25

    let res = addition(a, b);

    assert_eq!(res.to_bits(), 0xbe800000); // -0.25
}

#[test]
fn addition_addition_nan() {
    let f = Format::ieee754_single();

    let a = Value::from_comps(false, 255, 1337, f.clone()); // any NaN
    let b = Value::from_comps(false, 0, 0, f.clone()); // 0.0

    let res = addition(a, b);

    assert_eq!(res.to_bits(), 0x7fc00000); // NaN

    let a = Value::from_comps(false, 0, 0, f.clone()); // 0.0
    let b = Value::from_comps(false, 255, 1337, f.clone()); // any NaN

    let res = addition(a, b);

    assert_eq!(res.to_bits(), 0x7fc00000); // NaN

    let a = Value::from_comps(false, 255, 0, f.clone()); // +inf
    let b = Value::from_comps(false, 255, 1337, f.clone()); // any NaN

    let res = addition(a, b);

    assert_eq!(res.to_bits(), 0x7fc00000); // NaN

    let a = Value::from_comps(false, 255, 1337, f.clone()); // any NaN
    let b = Value::from_comps(true, 255, 0, f.clone()); // -inf

    let res = addition(a, b);

    assert_eq!(res.to_bits(), 0x7fc00000); // NaN

    let a = Value::from_comps(false, 255, 1337, f.clone()); // any NaN
    let b = Value::from_comps(true, 255, 1338, f.clone()); // any NaN

    let res = addition(a, b);

    assert_eq!(res.to_bits(), 0x7fc00000); // NaN
}

#[test]
fn addition_addition_inf() {
    let f = Format::ieee754_single();

    let a = Value::from_comps(false, 255, 0, f.clone()); // +inf
    let b = Value::from_comps(false, 0, 0, f.clone()); // 0.0

    let res = addition(a, b);

    assert_eq!(res.to_bits(), 0x7f800000); // +inf

    let a = Value::from_comps(false, 255, 0, f.clone()); // +inf
    let b = Value::from_comps(false, 127, 0, f.clone()); // 1.0

    let res = addition(a, b);

    assert_eq!(res.to_bits(), 0x7f800000); // +inf

    let a = Value::from_comps(false, 255, 0, f.clone()); // +inf
    let b = Value::from_comps(false, 254, 0, f.clone()); // +max value

    let res = addition(a, b);

    assert_eq!(res.to_bits(), 0x7f800000); // +inf

    let a = Value::from_comps(false, 255, 0, f.clone()); // +inf
    let b = Value::from_comps(false, 255, 0, f.clone()); // +inf

    let res = addition(a, b);

    assert_eq!(res.to_bits(), 0x7f800000); // +inf

    let a = Value::from_comps(true, 255, 0, f.clone()); // -inf
    let b = Value::from_comps(true, 254, 0, f.clone()); // -max value

    let res = addition(a, b);

    assert_eq!(res.to_bits(), 0xff800000); // -inf

    let a = Value::from_comps(true, 255, 0, f.clone()); // -inf
    let b = Value::from_comps(true, 255, 0, f.clone()); // -inf

    let res = addition(a, b);

    assert_eq!(res.to_bits(), 0xff800000); // -inf

    // Opposite infinities have no sum.
    let a = Value::from_comps(false, 255, 0, f.clone()); // +inf
    let b = Value::from_comps(true, 255, 0, f.clone()); // -inf

    let res = addition(a, b);

    assert_eq!(res.to_bits(), 0x7fc00000); // NaN
}
