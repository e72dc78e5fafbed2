use number_prefix::{Double, NumberPrefix, PrefixNames, Prefixed, Single, Standalone};
use number_prefix::{Exa, Gibi, Giga, Kibi, Kilo, Mibi, Peta, Tera, Yotta, Zetta};

fn from_double(result: NumberPrefix<Double>) -> NumberPrefix<f64> {
    match result {
        Standalone(n) => Standalone(f64::from_bits(n.to_bits())),
        Prefixed(prefix, n) => Prefixed(prefix, f64::from_bits(n.to_bits())),
    }
}

fn from_single(result: NumberPrefix<Single>) -> NumberPrefix<f32> {
    match result {
        Standalone(n) => Standalone(f32::from_bits(n.to_bits())),
        Prefixed(prefix, n) => Prefixed(prefix, f32::from_bits(n.to_bits())),
    }
}

fn decimal64(amount: f64) -> NumberPrefix<f64> {
    from_double(NumberPrefix::decimal(Double::from_bits(amount.to_bits())))
}

fn decimal32(amount: f32) -> NumberPrefix<f32> {
    from_single(NumberPrefix::decimal(Single::from_bits(amount.to_bits())))
}

fn binary64(amount: f64) -> NumberPrefix<f64> {
    from_double(NumberPrefix::binary(Double::from_bits(amount.to_bits())))
}

fn binary32(amount: f32) -> NumberPrefix<f32> {
    from_single(NumberPrefix::binary(Single::from_bits(amount.to_bits())))
}

#[test]
fn decimal_minus_one_billion() {
    assert_eq!(decimal64(-1_000_000_000_f64), Prefixed(Giga, -1f64))
}

#[test]
fn decimal_minus_one() {
    assert_eq!(decimal64(-1f64), Standalone(-1f64))
}

#[test]
fn decimal_0() {
    assert_eq!(decimal64(0f64), Standalone(0f64))
}

#[test]
fn decimal_999() {
    assert_eq!(decimal32(999f32), Standalone(999f32))
}

#[test]
fn decimal_1000() {
    assert_eq!(decimal32(1000f32), Prefixed(Kilo, 1f32))
}

#[test]
fn decimal_1030() {
    assert_eq!(decimal32(1030f32), Prefixed(Kilo, 1.03f32))
}

#[test]
fn decimal_1100() {
    assert_eq!(decimal64(1100f64), Prefixed(Kilo, 1.1f64))
}

#[test]
fn decimal_1111() {
    assert_eq!(decimal64(1111f64), Prefixed(Kilo, 1.111f64))
}

#[test]
fn binary_126456() {
    assert_eq!(binary32(126_456f32), Prefixed(Kibi, 123.492188f32))
}

#[test]
fn binary_1048576() {
    assert_eq!(binary64(1_048_576f64), Prefixed(Mibi, 1f64))
}

#[test]
fn binary_1073741824() {
    assert_eq!(binary32(2_147_483_648f32), Prefixed(Gibi, 2f32))
}

#[test]
fn giga() {
    assert_eq!(decimal64(1_000_000_000f64), Prefixed(Giga, 1f64))
}

#[test]
fn tera() {
    assert_eq!(decimal64(1_000_000_000_000f64), Prefixed(Tera, 1f64))
}

#[test]
fn peta() {
    assert_eq!(decimal64(1_000_000_000_000_000f64), Prefixed(Peta, 1f64))
}

#[test]
fn exa() {
    assert_eq!(decimal64(1_000_000_000_000_000_000f64), Prefixed(Exa, 1f64))
}

#[test]
fn zetta() {
    assert_eq!(decimal64(1_000_000_000_000_000_000_000f64), Prefixed(Zetta, 1f64))
}

#[test]
fn yotta() {
    assert_eq!(decimal64(1_000_000_000_000_000_000_000_000f64), Prefixed(Yotta, 1f64))
}

#[test]
#[allow(overflowing_literals)]
fn and_so_on() {
    // When you hit yotta, don't keep going
    assert_eq!(
        decimal64(1_000_000_000_000_000_000_000_000_000f64),
        Prefixed(Yotta, 1000f64)
    )
}

#[test]
fn example_one() {
    let result = match decimal32(8542_f32) {
        Standalone(bytes) => format!("The file is {} bytes in size", bytes),
        Prefixed(prefix, n) => format!("The file is {:.1} {}B in size", n, prefix.symbol()),
    };

    assert_eq!(result, "The file is 8.5 kB in size");
}

#[test]
fn example_two() {
    let result = match decimal32(705_f32) {
        Standalone(bytes) => format!("The file is {} bytes in size", bytes),
        Prefixed(prefix, n) => format!("The file is {:.1} {}B in size", n, prefix.symbol()),
    };

    assert_eq!(result, "The file is 705 bytes in size");
}

#[test]
fn example_three() {
    let result = match binary32(8542_f32) {
        Standalone(bytes) => format!("The file is {} bytes in size", bytes),
        Prefixed(prefix, n) => format!("The file is {:.1} {}B in size", n, prefix.symbol()),
    };

    assert_eq!(result, "The file is 8.3 KiB in size");
}
