//! Integers as IEEE 754 binary floating-point numbers.
//!
//! The library holds no floating-point number: it holds the bits of one.  A
//! number of 32 bits has 1 sign bit, 8 exponent bits and 23 fraction bits; a
//! number of 64 bits has 1, 11 and 52.  An integer whose magnitude takes no
//! more bits than the fraction has and one more is such a number exactly,
//! and these functions give its bits.
use vstd::prelude::*;

verus! {

/// Two to the power of `e`.
pub open spec fn two_to(e: nat) -> nat
    decreases e,
{
    if e == 0 {
        1
    } else {
        2 * two_to((e - 1) as nat)
    }
}

/// The magnitude of an integer.
pub open spec fn magnitude(n: int) -> nat {
    if n < 0 {
        (-n) as nat
    } else {
        n as nat
    }
}

/// A greater power of two is at least twice a smaller one.
pub proof fn lemma_two_to_grows(smaller: nat, greater: nat)
    requires
        smaller < greater,
    ensures
        2 * two_to(smaller) <= two_to(greater),
        1 <= two_to(smaller),
    decreases greater,
{
    if smaller + 1 < greater {
        lemma_two_to_grows(smaller, (greater - 1) as nat);
    }
    if smaller > 0 {
        lemma_two_to_grows((smaller - 1) as nat, smaller);
    }
}

/// Whether `bits` are the bits of the number of 32 bits that is the integer `n`, whose
/// magnitude is less than two to the power of 24: the sign bit says
/// whether `n` is negative, and the fraction `f` and the exponent `e` are
/// such that `(2^23 + f) * 2^(e - 150)` is the magnitude of `n`.  Zero has
/// all bits zero.
pub open spec fn single_encodes(bits: u32, n: int) -> bool {
    let sign = bits as int / 0x8000_0000;
    let exponent = (bits as int / 0x80_0000) % 0x100;
    let fraction = bits as int % 0x80_0000;
    if n == 0 {
        bits == 0
    } else {
        &&& (sign == 1) == (n < 0)
        &&& 127 <= exponent <= 150
        &&& 0x80_0000 + fraction == magnitude(n) * two_to((150 - exponent) as nat)
    }
}

/// No two patterns of bits are the same integer.
pub proof fn lemma_single_unique(first: u32, second: u32, n: int)
    requires
        single_encodes(first, n),
        single_encodes(second, n),
    ensures
        first == second,
{
    if n != 0 {
        let m = magnitude(n);
        let e1 = (first as int / 0x80_0000) % 0x100;
        let e2 = (second as int / 0x80_0000) % 0x100;
        let f1 = first as int % 0x80_0000;
        let f2 = second as int % 0x80_0000;
        if e1 < e2 {
            lemma_two_to_grows((150 - e2) as nat, (150 - e1) as nat);
            let small = two_to((150 - e2) as nat);
            let great = two_to((150 - e1) as nat);
            assert(m * great >= m * (2 * small)) by (nonlinear_arith)
                requires
                    great >= 2 * small,
                    m >= 0,
            ;
            assert(m * (2 * small) == 2 * (m * small)) by (nonlinear_arith);
            assert(false);
        }
        if e2 < e1 {
            lemma_two_to_grows((150 - e1) as nat, (150 - e2) as nat);
            let small = two_to((150 - e1) as nat);
            let great = two_to((150 - e2) as nat);
            assert(m * great >= m * (2 * small)) by (nonlinear_arith)
                requires
                    great >= 2 * small,
                    m >= 0,
            ;
            assert(m * (2 * small) == 2 * (m * small)) by (nonlinear_arith);
            assert(false);
        }
        assert(f1 == f2);
        let s1 = first as int / 0x8000_0000;
        let s2 = second as int / 0x8000_0000;
        assert(s1 == s2);
        assert(first as int == s1 * 0x8000_0000 + e1 * 0x80_0000 + f1);
        assert(second as int == s2 * 0x8000_0000 + e2 * 0x80_0000 + f2);
    }
}

/// The bits of the number of 32 bits that is the integer `n`.
pub open spec fn single_of(n: int) -> u32 {
    choose|bits: u32| single_encodes(bits, n)
}

/// Every integer of a magnitude below two to the power of 24 has
/// its bits.
pub proof fn lemma_single_exists(n: int)
    requires
        -0x100_0000 < n < 0x100_0000,
    ensures
        single_encodes(single_of(n), n),
{
    if n == 0 {
        assert(single_encodes(0, 0));
    } else {
        let size = magnitude(n);
        assert(size * two_to(0) == size) by (nonlinear_arith)
            requires
                two_to(0) == 1,
        ;
        let (scaled, exponent) = lemma_single_scale(size, size, 150);
        let sign: nat = if n < 0 {
            0x8000_0000
        } else {
            0
        };
        let bits = (sign + exponent * 0x80_0000 + (scaled - 0x80_0000)) as u32;
        assert(bits as int == sign + exponent * 0x80_0000 + (scaled - 0x80_0000));
        assert(bits as int / 0x8000_0000 == if n < 0 {
            1int
        } else {
            0int
        });
        assert((bits as int / 0x80_0000) % 0x100 == exponent);
        assert(bits as int % 0x80_0000 == scaled - 0x80_0000);
        assert(single_encodes(bits, n));
    }
}

/// A magnitude can be doubled until its leading bit is the one above the
/// fraction.
proof fn lemma_single_scale(size: nat, scaled: nat, exponent: nat) -> (found: (nat, nat))
    requires
        1 <= size,
        1 <= scaled < 0x100_0000,
        127 <= exponent <= 150,
        scaled == size * two_to((150 - exponent) as nat),
        two_to((150 - exponent) as nat) <= scaled,
    ensures
        0x80_0000 <= found.0 < 0x100_0000,
        127 <= found.1 <= 150,
        found.0 == size * two_to((150 - found.1) as nat),
    decreases exponent,
{
    if scaled < 0x80_0000 {
        let shift = (150 - exponent) as nat;
        assert(two_to(shift + 1) == 2 * two_to(shift));
        assert(size * two_to(shift + 1) == 2 * (size * two_to(shift))) by (nonlinear_arith)
            requires
                two_to(shift + 1) == 2 * two_to(shift),
        ;
        if exponent == 127 {
            lemma_two_to_23(shift);
            assert(false);
        }
        lemma_single_scale(size, 2 * scaled, (exponent - 1) as nat)
    } else {
        (scaled, exponent)
    }
}

/// The bits of the number of 32 bits that is the integer `n`.
pub fn single_from(n: i32) -> (bits: u32)
    requires
        -0x100_0000 < n < 0x100_0000,
    ensures
        single_encodes(bits, n as int),
        bits == single_of(n as int),
{
    if n == 0 {
        proof {
            assert(single_encodes(0, 0));
            lemma_single_unique(0, single_of(0), 0);
        }
        return 0;
    }
    let negative: bool = n < 0;
    let size: u32 = if negative {
        (0 - n) as u32
    } else {
        n as u32
    };
    // The magnitude is doubled until its leading bit is the one above the
    // fraction; each doubling takes one from the exponent.
    let mut scaled: u32 = size;
    let mut exponent: u32 = 150;
    assert(size * two_to(0) == size) by (nonlinear_arith)
        requires
            two_to(0) == 1,
    ;
    while scaled < 0x80_0000
        invariant
            1 <= size < 0x100_0000,
            1 <= scaled < 0x100_0000,
            exponent <= 150,
            scaled == size * two_to((150 - exponent) as nat),
            two_to((150 - exponent) as nat) <= scaled,
            exponent > 127 || scaled >= 0x80_0000,
            exponent >= 127,
        decreases exponent,
    {
        proof {
            let shift = (150 - exponent) as nat;
            assert(two_to(shift + 1) == 2 * two_to(shift));
            assert(size * two_to(shift + 1) == 2 * (size * two_to(shift))) by (nonlinear_arith)
                requires
                    two_to(shift + 1) == 2 * two_to(shift),
            ;
            if exponent == 127 + 1 {
                lemma_two_to_23(shift + 1);
            }
        }
        scaled = scaled * 2;
        exponent = exponent - 1;
    }
    let sign: u32 = if negative {
        0x8000_0000
    } else {
        0
    };
    let bits: u32 = sign + exponent * 0x80_0000 + (scaled - 0x80_0000);
    proof {
        assert(bits as int / 0x8000_0000 == if negative {
            1int
        } else {
            0int
        });
        assert((bits as int / 0x80_0000) % 0x100 == exponent);
        assert(bits as int % 0x80_0000 == scaled - 0x80_0000);
        assert(single_encodes(bits, n as int));
        lemma_single_unique(bits, single_of(n as int), n as int);
    }
    bits
}

/// Two to the power of 23 is 0x80_0000.
proof fn lemma_two_to_23(e: nat)
    requires
        e == 23,
    ensures
        two_to(e) == 0x80_0000,
{
    reveal_with_fuel(two_to, 24);
}

/// Whether `bits` are the bits of the number of 64 bits that is the integer `n`, whose
/// magnitude is less than two to the power of 53: the sign bit says
/// whether `n` is negative, and the fraction `f` and the exponent `e` are
/// such that `(2^52 + f) * 2^(e - 1075)` is the magnitude of `n`.  Zero has
/// all bits zero.
pub open spec fn double_encodes(bits: u64, n: int) -> bool {
    let sign = bits as int / 0x8000_0000_0000_0000;
    let exponent = (bits as int / 0x10_0000_0000_0000) % 0x800;
    let fraction = bits as int % 0x10_0000_0000_0000;
    if n == 0 {
        bits == 0
    } else {
        &&& (sign == 1) == (n < 0)
        &&& 1023 <= exponent <= 1075
        &&& 0x10_0000_0000_0000 + fraction == magnitude(n) * two_to((1075 - exponent) as nat)
    }
}

/// No two patterns of bits are the same integer.
pub proof fn lemma_double_unique(first: u64, second: u64, n: int)
    requires
        double_encodes(first, n),
        double_encodes(second, n),
    ensures
        first == second,
{
    if n != 0 {
        let m = magnitude(n);
        let e1 = (first as int / 0x10_0000_0000_0000) % 0x800;
        let e2 = (second as int / 0x10_0000_0000_0000) % 0x800;
        let f1 = first as int % 0x10_0000_0000_0000;
        let f2 = second as int % 0x10_0000_0000_0000;
        if e1 < e2 {
            lemma_two_to_grows((1075 - e2) as nat, (1075 - e1) as nat);
            let small = two_to((1075 - e2) as nat);
            let great = two_to((1075 - e1) as nat);
            assert(m * great >= m * (2 * small)) by (nonlinear_arith)
                requires
                    great >= 2 * small,
                    m >= 0,
            ;
            assert(m * (2 * small) == 2 * (m * small)) by (nonlinear_arith);
            assert(false);
        }
        if e2 < e1 {
            lemma_two_to_grows((1075 - e1) as nat, (1075 - e2) as nat);
            let small = two_to((1075 - e1) as nat);
            let great = two_to((1075 - e2) as nat);
            assert(m * great >= m * (2 * small)) by (nonlinear_arith)
                requires
                    great >= 2 * small,
                    m >= 0,
            ;
            assert(m * (2 * small) == 2 * (m * small)) by (nonlinear_arith);
            assert(false);
        }
        assert(f1 == f2);
        let s1 = first as int / 0x8000_0000_0000_0000;
        let s2 = second as int / 0x8000_0000_0000_0000;
        assert(s1 == s2);
        assert(first as int == s1 * 0x8000_0000_0000_0000 + e1 * 0x10_0000_0000_0000 + f1);
        assert(second as int == s2 * 0x8000_0000_0000_0000 + e2 * 0x10_0000_0000_0000 + f2);
    }
}

/// The bits of the number of 64 bits that is the integer `n`.
pub open spec fn double_of(n: int) -> u64 {
    choose|bits: u64| double_encodes(bits, n)
}

/// Every integer of a magnitude below two to the power of 53 has
/// its bits.
pub proof fn lemma_double_exists(n: int)
    requires
        -0x20_0000_0000_0000 < n < 0x20_0000_0000_0000,
    ensures
        double_encodes(double_of(n), n),
{
    if n == 0 {
        assert(double_encodes(0, 0));
    } else {
        let size = magnitude(n);
        assert(size * two_to(0) == size) by (nonlinear_arith)
            requires
                two_to(0) == 1,
        ;
        let (scaled, exponent) = lemma_double_scale(size, size, 1075);
        let sign: nat = if n < 0 {
            0x8000_0000_0000_0000
        } else {
            0
        };
        let bits = (sign + exponent * 0x10_0000_0000_0000 + (scaled - 0x10_0000_0000_0000)) as u64;
        assert(bits as int == sign + exponent * 0x10_0000_0000_0000 + (scaled - 0x10_0000_0000_0000));
        assert(bits as int / 0x8000_0000_0000_0000 == if n < 0 {
            1int
        } else {
            0int
        });
        assert((bits as int / 0x10_0000_0000_0000) % 0x800 == exponent);
        assert(bits as int % 0x10_0000_0000_0000 == scaled - 0x10_0000_0000_0000);
        assert(double_encodes(bits, n));
    }
}

/// A magnitude can be doubled until its leading bit is the one above the
/// fraction.
proof fn lemma_double_scale(size: nat, scaled: nat, exponent: nat) -> (found: (nat, nat))
    requires
        1 <= size,
        1 <= scaled < 0x20_0000_0000_0000,
        1023 <= exponent <= 1075,
        scaled == size * two_to((1075 - exponent) as nat),
        two_to((1075 - exponent) as nat) <= scaled,
    ensures
        0x10_0000_0000_0000 <= found.0 < 0x20_0000_0000_0000,
        1023 <= found.1 <= 1075,
        found.0 == size * two_to((1075 - found.1) as nat),
    decreases exponent,
{
    if scaled < 0x10_0000_0000_0000 {
        let shift = (1075 - exponent) as nat;
        assert(two_to(shift + 1) == 2 * two_to(shift));
        assert(size * two_to(shift + 1) == 2 * (size * two_to(shift))) by (nonlinear_arith)
            requires
                two_to(shift + 1) == 2 * two_to(shift),
        ;
        if exponent == 1023 {
            lemma_two_to_52(shift);
            assert(false);
        }
        lemma_double_scale(size, 2 * scaled, (exponent - 1) as nat)
    } else {
        (scaled, exponent)
    }
}

/// The bits of the number of 64 bits that is the integer `n`.
pub fn double_from(n: i64) -> (bits: u64)
    requires
        -0x20_0000_0000_0000 < n < 0x20_0000_0000_0000,
    ensures
        double_encodes(bits, n as int),
        bits == double_of(n as int),
{
    if n == 0 {
        proof {
            assert(double_encodes(0, 0));
            lemma_double_unique(0, double_of(0), 0);
        }
        return 0;
    }
    let negative: bool = n < 0;
    let size: u64 = if negative {
        (0 - n) as u64
    } else {
        n as u64
    };
    // The magnitude is doubled until its leading bit is the one above the
    // fraction; each doubling takes one from the exponent.
    let mut scaled: u64 = size;
    let mut exponent: u64 = 1075;
    assert(size * two_to(0) == size) by (nonlinear_arith)
        requires
            two_to(0) == 1,
    ;
    while scaled < 0x10_0000_0000_0000
        invariant
            1 <= size < 0x20_0000_0000_0000,
            1 <= scaled < 0x20_0000_0000_0000,
            exponent <= 1075,
            scaled == size * two_to((1075 - exponent) as nat),
            two_to((1075 - exponent) as nat) <= scaled,
            exponent > 1023 || scaled >= 0x10_0000_0000_0000,
            exponent >= 1023,
        decreases exponent,
    {
        proof {
            let shift = (1075 - exponent) as nat;
            assert(two_to(shift + 1) == 2 * two_to(shift));
            assert(size * two_to(shift + 1) == 2 * (size * two_to(shift))) by (nonlinear_arith)
                requires
                    two_to(shift + 1) == 2 * two_to(shift),
            ;
            if exponent == 1023 + 1 {
                lemma_two_to_52(shift + 1);
            }
        }
        scaled = scaled * 2;
        exponent = exponent - 1;
    }
    let sign: u64 = if negative {
        0x8000_0000_0000_0000
    } else {
        0
    };
    let bits: u64 = sign + exponent * 0x10_0000_0000_0000 + (scaled - 0x10_0000_0000_0000);
    proof {
        assert(bits as int / 0x8000_0000_0000_0000 == if negative {
            1int
        } else {
            0int
        });
        assert((bits as int / 0x10_0000_0000_0000) % 0x800 == exponent);
        assert(bits as int % 0x10_0000_0000_0000 == scaled - 0x10_0000_0000_0000);
        assert(double_encodes(bits, n as int));
        lemma_double_unique(bits, double_of(n as int), n as int);
    }
    bits
}

/// Two to the power of 52 is 0x10_0000_0000_0000.
proof fn lemma_two_to_52(e: nat)
    requires
        e == 52,
    ensures
        two_to(e) == 0x10_0000_0000_0000,
{
    reveal_with_fuel(two_to, 53);
}

} // verus!
