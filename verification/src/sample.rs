//! Audio samples and their 24-bit linear PCM encoding.
//!
//! A sample is held as the bit pattern of an IEEE 754 binary32 number. Its value is a whole
//! multiple of 2^-149, so every statement about samples can be made over the integers: the
//! magnitude of a sample counts units of 2^-149, full scale (1.0) is 2^149 of them, and one
//! 24-bit step (2^-23) is 2^126 of them.

#[allow(unused_imports)]
use vstd::arithmetic::div_mod::*;
#[allow(unused_imports)]
use vstd::arithmetic::mul::*;
#[allow(unused_imports)]
use vstd::arithmetic::power2::*;
#[allow(unused_imports)]
use vstd::bits::*;
use vstd::prelude::*;

verus! {

/// The sample 0.0.
pub const SILENCE: u32 = 0;

/// The largest 24-bit value.
pub const L24_MAX: i32 = 8_388_607;

/// The smallest 24-bit value.
pub const L24_MIN: i32 = -8_388_608;

/// Whether the sign bit is set.
pub open spec fn is_negative(bits: u32) -> bool {
    bits >= 0x8000_0000
}

/// The biased exponent.
pub open spec fn exponent_field(bits: u32) -> nat {
    (bits / 0x80_0000 % 0x100) as nat
}

/// The fraction, without the implicit leading one.
pub open spec fn fraction_field(bits: u32) -> nat {
    (bits % 0x80_0000) as nat
}

/// Whether the pattern is not a number.
pub open spec fn is_nan(bits: u32) -> bool {
    exponent_field(bits) == 255 && fraction_field(bits) != 0
}

/// The absolute value of a sample in units of 2^-149. Infinity counts as the number that its
/// fields would denote, which is beyond full scale.
pub open spec fn magnitude(bits: u32) -> nat {
    if exponent_field(bits) == 0 {
        fraction_field(bits)
    } else {
        (0x80_0000 + fraction_field(bits)) as nat * pow2((exponent_field(bits) - 1) as nat)
    }
}

/// Full scale, 1.0, in units of 2^-149.
pub open spec fn full_scale() -> nat {
    pow2(149)
}

/// One 24-bit step, 2^-23, in units of 2^-149.
pub open spec fn l24_step() -> nat {
    pow2(126)
}

/// The absolute value of a sample in 24-bit steps, rounded to the nearest, halves upward.
pub open spec fn rounded_steps(bits: u32) -> nat {
    (magnitude(bits) + pow2(125)) as nat / l24_step()
}

/// The number of 24-bit steps that a sample is sent as: the nearest, halves away from zero.
/// Samples that would be beyond the range are held at its ends, and what is not a number counts as
/// silence.
pub open spec fn quantized(bits: u32) -> int {
    if is_nan(bits) {
        0
    } else if magnitude(bits) >= full_scale() {
        if is_negative(bits) {
            L24_MIN as int
        } else {
            L24_MAX as int
        }
    } else if is_negative(bits) {
        -rounded_steps(bits)
    } else if rounded_steps(bits) > L24_MAX {
        L24_MAX as int
    } else {
        rounded_steps(bits) as int
    }
}

/// The three low bytes of a value in two's complement, most significant first.
pub open spec fn l24_bytes(value: int) -> Seq<u8> {
    let word = value % 0x100_0000;
    seq![(word / 0x1_0000) as u8, (word / 0x100 % 0x100) as u8, (word % 0x100) as u8]
}

/// The value of three bytes in two's complement, most significant first.
pub open spec fn l24_value(high: u8, middle: u8, low: u8) -> int {
    let word = high * 0x1_0000 + middle * 0x100 + low;
    if high >= 0x80 {
        word - 0x100_0000
    } else {
        word
    }
}

/// The sample whose value is the given number of 24-bit steps.
pub open spec fn l24_sample(value: int) -> u32 {
    choose|bits: u32| is_l24_sample(bits, value)
}

/// Whether a sample's value is exactly the given number of 24-bit steps.
pub open spec fn is_l24_sample(bits: u32, value: int) -> bool {
    &&& magnitude(bits) == (if value < 0 { -value } else { value }) * l24_step()
    &&& is_negative(bits) == (value < 0)
}

/// What a sample becomes on its way through 24 bits.
pub open spec fn carried(bits: u32) -> u32 {
    let bytes = l24_bytes(quantized(bits));
    l24_sample(l24_value(bytes[0], bytes[1], bytes[2]))
}

proof fn lemma_pow2_split(low: nat, high: nat)
    ensures
        pow2(low) > 0,
        pow2(high) > 0,
        pow2(low) * pow2(high) == pow2(low + high),
{
    lemma_pow2_pos(low);
    lemma_pow2_pos(high);
    lemma_pow2_adds(low, high);
}

/// A sample is determined by its sign and magnitude.
pub proof fn law_sample_is_sign_and_magnitude(a: u32, b: u32)
    requires
        magnitude(a) == magnitude(b),
        is_negative(a) == is_negative(b),
    ensures
        a == b,
{
    lemma_magnitude_orders_exponents(a, b);
    lemma_magnitude_orders_exponents(b, a);
    assert(exponent_field(a) == exponent_field(b));
    if exponent_field(a) != 0 {
        let scale = pow2((exponent_field(a) - 1) as nat);
        lemma_pow2_pos((exponent_field(a) - 1) as nat);
        lemma_mul_is_commutative(scale as int, 0x80_0000 + fraction_field(a) as int);
        lemma_mul_is_commutative(scale as int, 0x80_0000 + fraction_field(b) as int);
        lemma_mul_equality_converse(
            scale as int,
            0x80_0000 + fraction_field(a) as int,
            0x80_0000 + fraction_field(b) as int,
        );
    }
    assert(fraction_field(a) == fraction_field(b));
}

proof fn lemma_magnitude_orders_exponents(a: u32, b: u32)
    ensures
        exponent_field(a) < exponent_field(b) ==> magnitude(a) < magnitude(b),
{
    if exponent_field(a) < exponent_field(b) {
        let ea = exponent_field(a);
        let eb = exponent_field(b);
        let scale_b = pow2((eb - 1) as nat);
        lemma_pow2_pos((eb - 1) as nat);
        assert((0x80_0000 + fraction_field(b)) * scale_b >= 0x80_0000 * scale_b)
            by (nonlinear_arith)
            requires
                fraction_field(b) >= 0,
                scale_b > 0,
        ;
        if ea == 0 {
            assert(0x80_0000 * scale_b >= 0x80_0000) by (nonlinear_arith)
                requires
                    scale_b > 0,
            ;
        } else {
            let scale_a = pow2((ea - 1) as nat);
            lemma_pow2_pos((ea - 1) as nat);
            lemma_pow2_unfold(ea);
            assert(pow2(ea) == 2 * scale_a);
            if ea < eb - 1 {
                lemma_pow2_strictly_increases(ea, (eb - 1) as nat);
            }
            assert((0x80_0000 + fraction_field(a)) * scale_a < 0x80_0000 * scale_b)
                by (nonlinear_arith)
                requires
                    fraction_field(a) < 0x80_0000,
                    scale_a > 0,
                    scale_b >= 2 * scale_a,
            ;
        }
    }
}

/// Which 24-bit values come from samples within full scale of the exponents that matter.
proof fn lemma_rounded_steps(bits: u32)
    requires
        103 <= exponent_field(bits) <= 126,
    ensures
        rounded_steps(bits) == (0x80_0000 + fraction_field(bits) + pow2(
            (126 - exponent_field(bits)) as nat,
        )) as nat / pow2((127 - exponent_field(bits)) as nat),
        magnitude(bits) < full_scale(),
{
    let e = exponent_field(bits);
    let s = (0x80_0000 + fraction_field(bits)) as int;
    let d = pow2((e - 1) as nat) as int;
    let half = pow2((126 - e) as nat) as int;
    let whole = pow2((127 - e) as nat) as int;
    lemma_pow2_split((e - 1) as nat, (126 - e) as nat);
    lemma_pow2_split((e - 1) as nat, (127 - e) as nat);
    assert(d * half == pow2(125));
    assert(d * whole == pow2(126));
    assert(s * d + half * d == (s + half) * d) by (nonlinear_arith);
    assert(half * d == d * half) by (nonlinear_arith);
    lemma_div_denominator((s + half) * d, d, whole);
    lemma_div_by_multiple(s + half, d);
    lemma_pow2_split((e - 1) as nat, (150 - e) as nat);
    lemma_pow2_split(24, (126 - e) as nat);
    lemma2_to64();
    assert(s * d < pow2((150 - e) as nat) * d) by (nonlinear_arith)
        requires
            s < 0x100_0000,
            d > 0,
            pow2((150 - e) as nat) == 0x100_0000 * half,
            half > 0,
    ;
    assert(pow2((150 - e) as nat) * d == d * pow2((150 - e) as nat)) by (nonlinear_arith);
}

/// Samples below half a step are silent on the wire.
proof fn lemma_small_samples(bits: u32)
    requires
        exponent_field(bits) < 103,
    ensures
        rounded_steps(bits) == 0,
        magnitude(bits) < full_scale(),
{
    let e = exponent_field(bits);
    lemma_pow2_split(24, 101);
    lemma2_to64();
    lemma_pow2_pos(101);
    assert(magnitude(bits) < pow2(125)) by {
        if e == 0 {
            assert(0x100_0000 * pow2(101) >= 0x100_0000) by (nonlinear_arith)
                requires
                    pow2(101) > 0,
            ;
        } else {
            let d = pow2((e - 1) as nat);
            lemma_pow2_pos((e - 1) as nat);
            if e - 1 < 101 {
                lemma_pow2_strictly_increases((e - 1) as nat, 101);
            }
            assert((0x80_0000 + fraction_field(bits)) * d < 0x100_0000 * pow2(101))
                by (nonlinear_arith)
                requires
                    fraction_field(bits) < 0x80_0000,
                    0 < d <= pow2(101),
            ;
        }
    }
    lemma_pow2_unfold(126);
    lemma_basic_div((magnitude(bits) + pow2(125)) as int, pow2(126) as int);
    lemma_pow2_strictly_increases(125, 149);
}

/// Samples at or beyond full scale have an exponent of at least 127.
proof fn lemma_large_samples(bits: u32)
    requires
        exponent_field(bits) >= 127,
    ensures
        magnitude(bits) >= full_scale(),
{
    let e = exponent_field(bits);
    let d = pow2((e - 1) as nat);
    lemma_pow2_split(23, 126);
    lemma2_to64();
    if e - 1 > 126 {
        lemma_pow2_strictly_increases(126, (e - 1) as nat);
    }
    assert((0x80_0000 + fraction_field(bits)) * d >= 0x80_0000 * pow2(126)) by (nonlinear_arith)
        requires
            fraction_field(bits) >= 0,
            d >= pow2(126),
            pow2(126) > 0,
    ;
}

/// Rounds a sample to 24 bits.
pub fn quantize_sample(bits: u32) -> (steps: i32)
    ensures
        steps == quantized(bits),
{
    let negative: bool = bits >= 0x8000_0000;
    let exponent: u32 = bits / 0x80_0000 % 0x100;
    let fraction: u32 = bits % 0x80_0000;
    if exponent >= 127 {
        proof {
            lemma_large_samples(bits);
        }
        if exponent == 255 && fraction != 0 {
            0
        } else if negative {
            L24_MIN
        } else {
            L24_MAX
        }
    } else if exponent < 103 {
        proof {
            lemma_small_samples(bits);
        }
        0
    } else {
        let shift: u32 = 127 - exponent;
        proof {
            lemma_rounded_steps(bits);
            lemma2_to64();
            lemma_pow2_pos((shift - 1) as nat);
            if shift - 1 < 23 {
                lemma_pow2_strictly_increases((shift - 1) as nat, 23);
            }
            lemma_u32_shl_is_mul(1, (shift - 1) as u32);
        }
        let half: u32 = 1u32 << (shift - 1);
        let sum: u32 = 0x80_0000 + fraction + half;
        proof {
            lemma_u32_shr_is_div(sum, shift);
        }
        let steps: u32 = sum >> shift;
        proof {
            lemma_pow2_pos(shift as nat);
            lemma_pow2_unfold(shift as nat);
            assert(pow2(shift as nat) >= 2);
            lemma_div_is_ordered_by_denominator(sum as int, 2, pow2(shift as nat) as int);
        }
        if negative {
            -(steps as i32)
        } else if steps > L24_MAX as u32 {
            L24_MAX
        } else {
            steps as i32
        }
    }
}

/// The sample that stands for a 24-bit value.
pub fn sample_from_l24(value: i32) -> (bits: u32)
    requires
        L24_MIN <= value <= L24_MAX,
    ensures
        bits == l24_sample(value as int),
        is_l24_sample(bits, value as int),
{
    if value == 0 {
        proof {
            lemma_l24_sample_is(0, 0);
        }
        return 0;
    }
    let steps: u32 = if value < 0 {
        (-value) as u32
    } else {
        value as u32
    };
    let mut significand: u32 = steps;
    let mut exponent: u32 = 127;
    proof {
        lemma2_to64();
    }
    while significand < 0x80_0000
        invariant
            1 <= steps <= 0x80_0000,
            1 <= significand < 0x100_0000,
            1 <= exponent <= 127,
            significand * pow2((exponent - 1) as nat) == steps * l24_step(),
            significand >= pow2((127 - exponent) as nat),
        decreases exponent,
    {
        proof {
            lemma2_to64();
            if exponent <= 104 {
                if exponent < 104 {
                    lemma_pow2_strictly_increases(23, (127 - exponent) as nat);
                }
                assert(false);
            }
            lemma_pow2_unfold((exponent - 1) as nat);
            lemma_pow2_unfold((128 - exponent) as nat);
            assert((2 * significand) * pow2((exponent - 2) as nat) == significand * (2 * pow2(
                (exponent - 2) as nat,
            ))) by (nonlinear_arith);
        }
        significand = significand * 2;
        exponent = exponent - 1;
    }
    let unsigned: u32 = exponent * 0x80_0000 + (significand - 0x80_0000);
    let bits: u32 = if value < 0 {
        0x8000_0000 + unsigned
    } else {
        unsigned
    };
    proof {
        assert(exponent_field(bits) == exponent);
        assert(fraction_field(bits) == significand - 0x80_0000);
        lemma_l24_sample_is(bits, value as int);
    }
    bits
}

proof fn lemma_l24_sample_is(bits: u32, value: int)
    requires
        is_l24_sample(bits, value) || (bits == 0 && value == 0),
    ensures
        is_l24_sample(bits, value),
        l24_sample(value) == bits,
{
    if bits == 0 {
        assert(magnitude(0) == 0);
        lemma_mul_basics(l24_step() as int);
    }
    assert(is_l24_sample(bits, value));
    assert(is_l24_sample(l24_sample(value), value));
    law_sample_is_sign_and_magnitude(bits, l24_sample(value));
}

/// The bytes of a 24-bit value, most significant first.
pub fn encode_l24(value: i32) -> (bytes: [u8; 3])
    requires
        L24_MIN <= value <= L24_MAX,
    ensures
        bytes@ == l24_bytes(value as int),
{
    let word: u32 = if value < 0 {
        (value + 0x100_0000) as u32
    } else {
        value as u32
    };
    let bytes: [u8; 3] = [(word / 0x1_0000) as u8, (word / 0x100 % 0x100) as u8, (word % 0x100) as u8];
    proof {
        assert(word as int == value as int % 0x100_0000);
        assert(bytes@ =~= l24_bytes(value as int));
    }
    bytes
}

/// The 24-bit value of three bytes, most significant first.
pub fn decode_l24(high: u8, middle: u8, low: u8) -> (value: i32)
    ensures
        value == l24_value(high, middle, low),
        L24_MIN <= value <= L24_MAX,
{
    let word: i32 = high as i32 * 0x1_0000 + middle as i32 * 0x100 + low as i32;
    if high >= 0x80 {
        word - 0x100_0000
    } else {
        word
    }
}

/// The sample that the first three bytes of a chunk hold.
pub fn read_l24_sample(chunk: &[u8]) -> (bits: u32)
    requires
        chunk@.len() >= 3,
    ensures
        bits == l24_sample(l24_value(chunk@[0], chunk@[1], chunk@[2])),
        is_l24_sample(bits, l24_value(chunk@[0], chunk@[1], chunk@[2])),
{
    sample_from_l24(decode_l24(chunk[0], chunk[1], chunk[2]))
}

/// Appends a sample's three bytes.
pub fn write_l24_sample_vec(dst: &mut Vec<u8>, sample: u32)
    ensures
        final(dst)@ == old(dst)@ + l24_bytes(quantized(sample)),
{
    proof {
        law_quantized_range(sample);
    }
    let bytes: [u8; 3] = encode_l24(quantize_sample(sample));
    dst.push(bytes[0]);
    dst.push(bytes[1]);
    dst.push(bytes[2]);
    proof {
        assert(dst@ =~= old(dst)@ + bytes@);
    }
}

proof fn lemma_normalized(steps: int, significand: int, exponent: nat) -> (bits: u32)
    requires
        1 <= significand < 0x100_0000,
        1 <= exponent <= 127,
        significand * pow2((exponent - 1) as nat) == steps * l24_step(),
        significand >= pow2((127 - exponent) as nat),
    ensures
        magnitude(bits) == steps * l24_step(),
        !is_negative(bits),
    decreases exponent,
{
    lemma2_to64();
    if significand >= 0x80_0000 {
        let bits = (exponent * 0x80_0000 + (significand - 0x80_0000)) as u32;
        assert(exponent_field(bits) == exponent);
        assert(fraction_field(bits) == significand - 0x80_0000);
        bits
    } else {
        if exponent <= 104 {
            if exponent < 104 {
                lemma_pow2_strictly_increases(23, (127 - exponent) as nat);
            }
            assert(false);
        }
        lemma_pow2_unfold((exponent - 1) as nat);
        lemma_pow2_unfold((128 - exponent) as nat);
        assert((2 * significand) * pow2((exponent - 2) as nat) == significand * (2 * pow2(
            (exponent - 2) as nat,
        ))) by (nonlinear_arith);
        lemma_normalized(steps, 2 * significand, (exponent - 1) as nat)
    }
}

/// Every 24-bit value is the value of exactly one sample.
pub proof fn law_l24_values_are_samples(value: int)
    requires
        L24_MIN <= value <= L24_MAX,
    ensures
        is_l24_sample(l24_sample(value), value),
        forall|bits: u32| #[trigger] is_l24_sample(bits, value) ==> bits == l24_sample(value),
{
    let steps = if value < 0 {
        -value
    } else {
        value
    };
    lemma2_to64();
    if value == 0 {
        lemma_l24_sample_is(0, 0);
    } else {
        let unsigned = lemma_normalized(steps, steps, 127);
        let bits = if value < 0 {
            (unsigned + 0x8000_0000) as u32
        } else {
            unsigned
        };
        assert(exponent_field(bits) == exponent_field(unsigned));
        assert(fraction_field(bits) == fraction_field(unsigned));
        lemma_l24_sample_is(bits, value);
    }
    assert forall|bits: u32| #[trigger] is_l24_sample(bits, value) implies bits == l24_sample(
        value,
    ) by {
        law_sample_is_sign_and_magnitude(bits, l24_sample(value));
    }
}

/// The bytes of a 24-bit value give the value back.
pub proof fn law_l24_bytes_round_trip(value: int)
    requires
        L24_MIN <= value <= L24_MAX,
    ensures
        l24_bytes(value).len() == 3,
        l24_value(l24_bytes(value)[0], l24_bytes(value)[1], l24_bytes(value)[2]) == value,
{
}

/// Three bytes give the bytes of their value back.
pub proof fn law_l24_value_round_trip(high: u8, middle: u8, low: u8)
    ensures
        L24_MIN <= l24_value(high, middle, low) <= L24_MAX,
        l24_bytes(l24_value(high, middle, low)) == seq![high, middle, low],
{
    let word = high * 0x1_0000 + middle * 0x100 + low;
    let upper = high * 0x100 + middle;
    assert(l24_value(high, middle, low) % 0x100_0000 == word);
    assert(word == upper * 0x100 + low);
    assert(word / 0x100 == upper && word % 0x100 == low);
    assert(upper % 0x100 == middle);
    assert(word / 0x1_0000 == high);
    assert(l24_bytes(l24_value(high, middle, low)) =~= seq![high, middle, low]);
}

/// Every sample is sent as a 24-bit value.
pub proof fn law_quantized_range(bits: u32)
    ensures
        L24_MIN <= quantized(bits) <= L24_MAX,
{
    let e = exponent_field(bits);
    lemma2_to64();
    if e >= 127 {
        lemma_large_samples(bits);
    } else if e < 103 {
        lemma_small_samples(bits);
    } else {
        lemma_rounded_steps(bits);
        let f = fraction_field(bits);
        if e == 126 {
            assert(rounded_steps(bits) == (0x80_0000 + f + 1) as nat / 2);
        } else {
            let whole = pow2((127 - e) as nat);
            let half = pow2((126 - e) as nat);
            lemma_pow2_unfold((127 - e) as nat);
            lemma_pow2_unfold((126 - e) as nat);
            lemma_pow2_pos((125 - e) as nat);
            assert(whole == 2 * half && half >= 2);
            let sum = (0x80_0000 + f + half) as int;
            lemma_fundamental_div_mod(sum, whole as int);
            let q = sum / whole as int;
            assert(q < 0x80_0000) by (nonlinear_arith)
                requires
                    whole * q <= sum,
                    sum < 0x100_0000 + half,
                    whole == 2 * half,
                    half >= 2,
            ;
        }
    }
}

/// A sample that is a 24-bit value is sent as that value and arrives unchanged.
pub proof fn law_l24_samples_are_carried_exactly(value: int)
    requires
        L24_MIN <= value <= L24_MAX,
    ensures
        quantized(l24_sample(value)) == value,
        carried(l24_sample(value)) == l24_sample(value),
{
    law_l24_values_are_samples(value);
    law_l24_bytes_round_trip(value);
    let bits = l24_sample(value);
    let steps = if value < 0 {
        -value
    } else {
        value
    };
    lemma_pow2_pos(126);
    lemma_pow2_unfold(126);
    lemma_pow2_split(23, 126);
    lemma2_to64();
    let step = l24_step() as int;
    assert(steps < 0x80_0000 ==> steps * step < 0x80_0000 * step) by (nonlinear_arith)
        requires
            step > 0,
    ;
    if is_nan(bits) {
        lemma_pow2_strictly_increases(126, 254);
        let f = fraction_field(bits);
        assert((0x80_0000 + f) * pow2(254) > 0x80_0000 * step) by (nonlinear_arith)
            requires
                f > 0,
                pow2(254) > step,
                step > 0,
        ;
        assert(false);
    }
    lemma_div_multiples_vanish_fancy(steps, pow2(125) as int, step);
    assert(steps * step == step * steps) by (nonlinear_arith);
}

/// No sample below full scale is nearer to it than half a step.
proof fn lemma_below_full_scale(bits: u32)
    requires
        magnitude(bits) < full_scale(),
    ensures
        magnitude(bits) <= full_scale() - pow2(125),
{
    let e = exponent_field(bits);
    let f = fraction_field(bits);
    if e >= 127 {
        lemma_large_samples(bits);
    } else {
        lemma_pow2_split(24, 125);
        lemma2_to64();
        lemma_pow2_pos(125);
        if e == 0 {
            assert(f <= 0xff_ffff * pow2(125)) by (nonlinear_arith)
                requires
                    f < 0x80_0000,
                    pow2(125) >= 1,
            ;
        } else {
            let d = pow2((e - 1) as nat);
            lemma_pow2_pos((e - 1) as nat);
            if e - 1 < 125 {
                lemma_pow2_strictly_increases((e - 1) as nat, 125);
            }
            assert((0x80_0000 + f) * d <= 0xff_ffff * pow2(125)) by (nonlinear_arith)
                requires
                    f < 0x80_0000,
                    0 < d <= pow2(125),
            ;
        }
        assert(0xff_ffff * pow2(125) == 0x100_0000 * pow2(125) - pow2(125)) by (nonlinear_arith);
    }
}

/// Carrying a sample moves it by at most half a step, keeps its sign and never pushes it past
/// full scale.
pub proof fn law_carried_is_within_half_a_step(bits: u32)
    requires
        !is_nan(bits),
        magnitude(bits) < full_scale(),
    ensures
        magnitude(carried(bits)) - magnitude(bits) <= pow2(125),
        magnitude(bits) - magnitude(carried(bits)) <= pow2(125),
        magnitude(carried(bits)) <= full_scale(),
        magnitude(carried(bits)) != 0 ==> is_negative(carried(bits)) == is_negative(bits),
{
    law_quantized_range(bits);
    law_l24_bytes_round_trip(quantized(bits));
    law_l24_values_are_samples(quantized(bits));
    lemma_pow2_pos(126);
    lemma_pow2_unfold(126);
    lemma_pow2_split(23, 126);
    lemma2_to64();
    let step = l24_step() as int;
    let steps = rounded_steps(bits) as int;
    lemma_fundamental_div_mod((magnitude(bits) + pow2(125)) as int, step);
    assert(steps * step == step * steps) by (nonlinear_arith);
    assert(steps == 0 ==> steps * step == 0) by (nonlinear_arith);
    lemma_below_full_scale(bits);
    assert(steps <= 0x80_0000) by (nonlinear_arith)
        requires
            steps * step <= 0x80_0000 * step,
            step > 0,
    ;
    assert(L24_MAX * step == 0x80_0000 * step - step) by (nonlinear_arith);
}

/// What has been carried once is carried unchanged ever after.
pub proof fn law_carrying_twice_is_carrying_once(bits: u32)
    ensures
        carried(carried(bits)) == carried(bits),
{
    let bytes = l24_bytes(quantized(bits));
    law_l24_value_round_trip(bytes[0], bytes[1], bytes[2]);
    law_l24_samples_are_carried_exactly(l24_value(bytes[0], bytes[1], bytes[2]));
}

/// The bytes of a 24-bit value are its two's complement, most significant first.
pub proof fn law_l24_bytes_are_in_network_order(value: int)
    requires
        -8_388_608 <= value <= 8_388_607,
    ensures
        l24_bytes(value).len() == 3,
        (l24_bytes(value)[0] * 256 + l24_bytes(value)[1]) * 256 + l24_bytes(value)[2] == (if value
            < 0 {
            value + 16_777_216
        } else {
            value
        }),
        l24_bytes(value)[0] >= 128 <==> value < 0,
{
    let word = value % 0x100_0000;
    assert(word / 0x100 / 0x100 == word / 0x1_0000);
}

/// A sample is sent as the nearest of the steps from -8388608 to 8388607, of which there are 2^23 to
/// full scale, and where two are as near, as the one that is further from zero. What lies beyond is
/// sent as the end of the range on its side, and what is not a number as silence.
pub proof fn law_samples_are_sent_as_the_nearest_step(bits: u32)
    ensures
        is_nan(bits) ==> quantized(bits) == 0,
        !is_nan(bits) && !is_negative(bits) && magnitude(bits) + pow2(125) >= pow2(149) ==> quantized(
            bits,
        ) == 8_388_607,
        !is_nan(bits) && !is_negative(bits) && magnitude(bits) + pow2(125) < pow2(149) ==> {
            &&& quantized(bits) >= 0
            &&& quantized(bits) * pow2(126) - pow2(125) <= magnitude(bits) < quantized(bits) * pow2(
                126,
            ) + pow2(125)
        },
        !is_nan(bits) && is_negative(bits) && magnitude(bits) >= pow2(149) ==> quantized(bits)
            == -8_388_608,
        !is_nan(bits) && is_negative(bits) && magnitude(bits) < pow2(149) ==> {
            &&& quantized(bits) <= 0
            &&& -quantized(bits) * pow2(126) - pow2(125) <= magnitude(bits) < -quantized(bits)
                * pow2(126) + pow2(125)
        },
{
    lemma_pow2_pos(126);
    lemma_pow2_unfold(126);
    lemma_pow2_split(23, 126);
    lemma2_to64();
    let step = pow2(126) as int;
    let steps = rounded_steps(bits) as int;
    lemma_fundamental_div_mod((magnitude(bits) + pow2(125)) as int, step);
    lemma_mod_bound((magnitude(bits) + pow2(125)) as int, step);
    assert(steps * step == step * steps) by (nonlinear_arith);
    let sum = (magnitude(bits) + pow2(125)) as int;
    if sum >= 0x80_0000 * step {
        assert(steps >= 0x80_0000) by (nonlinear_arith)
            requires
                sum >= 0x80_0000 * step,
                sum < steps * step + step,
                step > 0,
        ;
    } else {
        assert(steps < 0x80_0000) by (nonlinear_arith)
            requires
                sum < 0x80_0000 * step,
                steps * step <= sum,
                step > 0,
        ;
    }
}

} // verus!
