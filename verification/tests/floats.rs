use number_prefix::division::divide;
use number_prefix::parts::at_least;
use number_prefix::{Amounts, Double, Format, Ieee, Parts, Single};

/// A sequence of bit patterns that looks random and is the same at every run.
struct Patterns(u64);

impl Patterns {
    fn next(&mut self) -> u64 {
        self.0 ^= self.0 << 13;
        self.0 ^= self.0 >> 7;
        self.0 ^= self.0 << 17;
        self.0
    }
}

fn double(x: f64) -> Double {
    Double::from_bits(x.to_bits())
}

fn single(x: f32) -> Single {
    Single::from_bits(x.to_bits())
}

#[test]
fn constants_are_1000_and_1024() {
    assert_eq!(Double::num_1000().to_bits(), 1000f64.to_bits());
    assert_eq!(Double::num_1024().to_bits(), 1024f64.to_bits());
    assert_eq!(Single::num_1000().to_bits(), 1000f32.to_bits());
    assert_eq!(Single::num_1024().to_bits(), 1024f32.to_bits());
}

#[test]
fn formats_of_the_two_types() {
    assert_eq!(Double::layout(), Format::Binary64);
    assert_eq!(Single::layout(), Format::Binary32);
    assert_eq!(Format::Binary64.hidden(), 1u64 << 52);
    assert_eq!(Format::Binary32.hidden(), 1u64 << 23);
    assert_eq!(Format::Binary64.top_exponent(), 2047);
    assert_eq!(Format::Binary32.top_exponent(), 255);
}

#[test]
fn fields_of_known_numbers() {
    assert_eq!(
        double(1.0).unpack(),
        Parts { negative: false, exponent: 1023, fraction: 0 }
    );
    assert_eq!(
        double(-1000.0).unpack(),
        Parts { negative: true, exponent: 1032, fraction: 0xF_4000_0000_0000 }
    );
    assert_eq!(
        single(1000.0).unpack(),
        Parts { negative: false, exponent: 136, fraction: 0x7A_0000 }
    );
    assert_eq!(
        single(-0.0).unpack(),
        Parts { negative: true, exponent: 0, fraction: 0 }
    );
    assert_eq!(
        double(f64::INFINITY).unpack(),
        Parts { negative: false, exponent: 2047, fraction: 0 }
    );
    assert_eq!(
        Double::pack(Parts { negative: true, exponent: 1033, fraction: 0 }).to_bits(),
        (-1024f64).to_bits()
    );
    assert_eq!(
        Single::pack(Parts { negative: false, exponent: 127, fraction: 0x40_0000 }).to_bits(),
        1.5f32.to_bits()
    );
}

#[test]
fn packing_gives_the_bits_back() {
    let mut patterns = Patterns(0x9E37_79B9_7F4A_7C15);
    for _ in 0..20_000 {
        let bits = patterns.next();
        assert_eq!(Double::pack(Double::from_bits(bits).unpack()).to_bits(), bits);
        let half = (bits >> 32) as u32;
        assert_eq!(Single::pack(Single::from_bits(half).unpack()).to_bits(), half);
    }
}

#[test]
fn sign_test_reads_the_sign_bit() {
    assert!(double(-1.0).is_negative());
    assert!(!double(1.0).is_negative());
    assert!(double(-0.0).is_negative());
    assert!(!double(0.0).is_negative());
    assert!(single(-0.0).is_negative());
    assert!(single(f32::NEG_INFINITY).is_negative());
    assert!(!single(f32::INFINITY).is_negative());
    let mut patterns = Patterns(7);
    for _ in 0..20_000 {
        let bits = patterns.next();
        assert_eq!(
            Double::from_bits(bits).is_negative(),
            f64::from_bits(bits).is_sign_negative()
        );
    }
}

#[test]
fn negation_flips_the_sign_bit() {
    assert_eq!(double(1.5).neg().to_bits(), (-1.5f64).to_bits());
    assert_eq!(double(-0.0).neg().to_bits(), 0f64.to_bits());
    assert_eq!(single(1000.0).neg().to_bits(), (-1000f32).to_bits());
    let mut patterns = Patterns(11);
    for _ in 0..20_000 {
        let bits = patterns.next();
        assert_eq!(Double::from_bits(bits).neg().to_bits(), (-f64::from_bits(bits)).to_bits());
        assert_eq!(Double::from_bits(bits).neg().neg().to_bits(), bits);
        let half = (bits >> 32) as u32;
        assert_eq!(Single::from_bits(half).neg().to_bits(), (-f32::from_bits(half)).to_bits());
    }
}

#[test]
fn comparison_of_known_numbers() {
    assert!(double(1000.0).ge(double(1000.0)));
    assert!(double(1000.5).ge(double(1000.0)));
    assert!(!double(999.999).ge(double(1000.0)));
    assert!(double(0.0).ge(double(-0.0)));
    assert!(double(-0.0).ge(double(0.0)));
    assert!(double(-1.0).ge(double(-2.0)));
    assert!(!double(-2.0).ge(double(-1.0)));
    assert!(!double(-1.0).ge(double(1.0)));
    assert!(double(f64::INFINITY).ge(double(f64::MAX)));
    assert!(!double(f64::NEG_INFINITY).ge(double(f64::MIN)));
    assert!(!double(f64::NAN).ge(double(1.0)));
    assert!(!double(1.0).ge(double(f64::NAN)));
    assert!(!double(f64::NAN).ge(double(f64::NAN)));
    assert!(single(5e-45).ge(single(0.0)));
    assert!(!single(0.0).ge(single(5e-45)));
}

#[test]
fn comparison_agrees_with_the_machine() {
    let mut patterns = Patterns(0xDEAD_BEEF_CAFE_F00D);
    for i in 0..100_000 {
        let a = patterns.next();
        // every fourth pair differs in the low bits only
        let b = if i % 4 == 0 { a ^ (patterns.next() & 0xFF) } else { patterns.next() };
        assert_eq!(
            Double::from_bits(a).ge(Double::from_bits(b)),
            f64::from_bits(a) >= f64::from_bits(b),
            "{:#x} >= {:#x}",
            a,
            b
        );
        let (c, d) = ((a >> 32) as u32, (b >> 32) as u32);
        assert_eq!(
            Single::from_bits(c).ge(Single::from_bits(d)),
            f32::from_bits(c) >= f32::from_bits(d),
            "{:#x} >= {:#x}",
            c,
            d
        );
    }
}

#[test]
fn comparison_of_fields() {
    let one = Parts { negative: false, exponent: 1023, fraction: 0 };
    let two = Parts { negative: false, exponent: 1024, fraction: 0 };
    let nan = Parts { negative: false, exponent: 2047, fraction: 1 };
    assert!(at_least(two, one, Format::Binary64));
    assert!(!at_least(one, two, Format::Binary64));
    assert!(at_least(one, one, Format::Binary64));
    assert!(!at_least(nan, one, Format::Binary64));
    assert!(!at_least(one, nan, Format::Binary64));
}

#[test]
fn division_of_known_numbers() {
    assert_eq!(double(1000.0).div(Double::num_1000()).to_bits(), 1f64.to_bits());
    assert_eq!(double(1024.0).div(Double::num_1024()).to_bits(), 1f64.to_bits());
    assert_eq!(double(1100.0).div(Double::num_1000()).to_bits(), 1.1f64.to_bits());
    assert_eq!(double(1e27).div(Double::num_1000()).to_bits(), 1e24f64.to_bits());
    assert_eq!(double(126_456.0).div(Double::num_1024()).to_bits(), 123.4921875f64.to_bits());
    assert_eq!(single(1030.0).div(Single::num_1000()).to_bits(), 1.03f32.to_bits());
    assert_eq!(single(8542.0).div(Single::num_1024()).to_bits(), 8.341797f32.to_bits());
    assert_eq!(
        double(f64::INFINITY).div(Double::num_1000()).to_bits(),
        f64::INFINITY.to_bits()
    );
    assert_eq!(
        double(f64::MAX).div(Double::num_1000()).to_bits(),
        (f64::MAX / 1000.0).to_bits()
    );
    assert_eq!(
        single(f32::MAX).div(Single::num_1024()).to_bits(),
        (f32::MAX / 1024.0).to_bits()
    );
}

#[test]
fn division_at_the_ends_of_a_binade() {
    // a division by 1024 loses no bits
    let x = f32::from_bits(0x4500_0801);
    assert_eq!(single(x).div(Single::num_1024()).to_bits(), (x / 1024.0).to_bits());
    // the quotients by 1000 next to 1000 and next to 1024
    for bits in [0x447A_0000u32, 0x447A_0001, 0x447F_FFFF, 0x4480_0000, 0x4480_0001] {
        let x = f32::from_bits(bits);
        assert_eq!(single(x).div(Single::num_1000()).to_bits(), (x / 1000.0).to_bits());
    }
    // the largest and the smallest double-precision number of each of the
    // first binades that are divided
    for exponent in 1032u64..1100 {
        for fraction in [0u64, 1, 0xF_4000_0000_0000, 0xF_FFFF_FFFF_FFFF] {
            let x = f64::from_bits((exponent << 52) | fraction);
            if x >= 1000.0 {
                assert_eq!(double(x).div(Double::num_1000()).to_bits(), (x / 1000.0).to_bits());
            }
            if x >= 1024.0 {
                assert_eq!(double(x).div(Double::num_1024()).to_bits(), (x / 1024.0).to_bits());
            }
        }
    }
}

#[test]
fn division_agrees_with_the_machine() {
    let mut patterns = Patterns(0x0123_4567_89AB_CDEF);
    let mut done = 0;
    while done < 200_000 {
        let bits = patterns.next() & 0x7FFF_FFFF_FFFF_FFFF;
        let x = f64::from_bits(bits);
        if x >= 1024.0 {
            assert_eq!(
                double(x).div(Double::num_1000()).to_bits(),
                (x / 1000.0).to_bits(),
                "{:#x} / 1000",
                bits
            );
            assert_eq!(
                double(x).div(Double::num_1024()).to_bits(),
                (x / 1024.0).to_bits(),
                "{:#x} / 1024",
                bits
            );
            done += 1;
        }
        let y = f32::from_bits((bits >> 32) as u32);
        if y >= 1024.0 {
            assert_eq!(
                single(y).div(Single::num_1000()).to_bits(),
                (y / 1000.0).to_bits(),
                "{:#x} / 1000",
                y.to_bits()
            );
            assert_eq!(
                single(y).div(Single::num_1024()).to_bits(),
                (y / 1024.0).to_bits(),
                "{:#x} / 1024",
                y.to_bits()
            );
        }
    }
}

#[test]
fn division_agrees_with_the_machine_near_the_bases() {
    // every single-precision number from 1000 up to 1100
    let mut bits = 1000f32.to_bits();
    while bits < 1100f32.to_bits() {
        let x = f32::from_bits(bits);
        assert_eq!(single(x).div(Single::num_1000()).to_bits(), (x / 1000.0).to_bits());
        if x >= 1024.0 {
            assert_eq!(single(x).div(Single::num_1024()).to_bits(), (x / 1024.0).to_bits());
        }
        bits += 1;
    }
    // and every 97th from there up to 4,000,000
    while bits < 4_000_000f32.to_bits() {
        let x = f32::from_bits(bits);
        assert_eq!(single(x).div(Single::num_1000()).to_bits(), (x / 1000.0).to_bits());
        assert_eq!(single(x).div(Single::num_1024()).to_bits(), (x / 1024.0).to_bits());
        bits += 97;
    }
}

#[test]
fn division_of_fields() {
    let thousand = Parts { negative: false, exponent: 1032, fraction: 0xF_4000_0000_0000 };
    let one = Parts { negative: false, exponent: 1023, fraction: 0 };
    assert_eq!(divide(thousand, 1000, Format::Binary64), one);
    let infinity = Parts { negative: false, exponent: 255, fraction: 0 };
    assert_eq!(divide(infinity, 1024, Format::Binary32), infinity);
}
