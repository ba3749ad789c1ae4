//! Laws of the numbers that floating-point patterns stand for.

use crate::output_format::channel_laws;
use crate::output_format::request::OutputBitDepth;
use crate::output_format::scaling;
use crate::types::ColorFormat;
use vstd::arithmetic::power2::*;
use vstd::prelude::*;

verus! {

/// The size of a number with an exponent and a fraction, in units of the smallest one: with no
/// exponent the fraction, and otherwise the fraction with its leading one, doubled once less than
/// the exponent says.
pub open spec fn size_of(exponent: int, fraction: int, leading: int) -> int {
    if exponent == 0 {
        fraction
    } else {
        (leading + fraction) * pow2((exponent - 1) as nat)
    }
}

proof fn lemma_normalized_size(mantissa: int, exponent: int, leading: int)
    requires
        0 <= mantissa < leading,
        exponent >= 1,
    ensures
        ({
            let (moved, lowered) = scaling::normalized(mantissa, exponent, leading);
            &&& 0 <= moved < 2 * leading
            &&& 1 <= lowered <= exponent
            &&& moved < leading ==> moved == 0 || lowered == 1
            &&& moved * pow2((lowered - 1) as nat) == mantissa * pow2((exponent - 1) as nat)
        }),
    decreases exponent,
{
    if 0 < mantissa < leading && exponent > 1 {
        lemma_pow2_unfold((exponent - 1) as nat);
        let power = pow2((exponent - 2) as nat) as int;
        assert(2 * mantissa * power == mantissa * (2 * power)) by (nonlinear_arith);
        if 2 * mantissa < leading {
            lemma_normalized_size(2 * mantissa, exponent - 1, leading);
        } else {
            assert(scaling::normalized(2 * mantissa, exponent - 1, leading) == (
                2 * mantissa,
                exponent - 1,
            ));
        }
    }
}

/// A single-precision pattern stands for the number that a sample codes, which has its own length of
/// mantissa and exponent bias: the sign is the same, and so is the size when both are counted in
/// the same unit.
pub proof fn lemma_single_keeps_number(
    sample: i32,
    scaled: bool,
    mantissa_length: u8,
    exponent_bias: i8,
)
    requires
        scaling::single_pattern(sample, scaled, mantissa_length, exponent_bias) is Ok,
    ensures
        ({
            let pattern = scaling::single_pattern(
                sample,
                scaled,
                mantissa_length,
                exponent_bias,
            )->Ok_0 as int;
            let depth = OutputBitDepth::F32 { mantissa_length, exponent_bias };
            let value = channel_laws::unscaled(sample, 0, depth, scaled);
            let size = if value < 0 {
                -value
            } else {
                value
            };
            let leading = pow2(mantissa_length as nat) as int;
            &&& pattern >= 0x8000_0000 <==> value < 0
            &&& size_of(
                pattern % 0x8000_0000 / 0x80_0000,
                pattern % 0x80_0000,
                0x80_0000,
            ) * pow2((mantissa_length + exponent_bias + 128) as nat) == size_of(
                size / leading,
                size % leading,
                leading,
            ) * pow2(278)
        }),
{
    let depth = OutputBitDepth::F32 { mantissa_length, exponent_bias };
    let value = channel_laws::unscaled(sample, 0, depth, scaled);
    lemma2_to64();
    channel_laws::lemma_scaled_component(sample, 0, ColorFormat::Luma, depth, scaled);
    assert(value * pow2(0) == value) by (nonlinear_arith)
        requires
            pow2(0) == 1,
    ;
    let length = mantissa_length as nat;
    let size = scaling::magnitude(value);
    let leading = pow2(length) as int;
    lemma_pow2_pos(length);
    let rest = pow2((23 - length) as nat) as int;
    lemma_pow2_adds(length, (23 - length) as nat);
    lemma_pow2_pos((23 - length) as nat);
    vstd::arithmetic::div_mod::lemma_fundamental_div_mod(size, leading);
    vstd::arithmetic::div_mod::lemma_div_pos_is_pos(size, leading);
    let coded = size / leading;
    let fraction = size % leading;
    let (mantissa, exponent) = if coded == 0 {
        scaling::normalized(fraction, 128 - exponent_bias, leading)
    } else {
        (fraction + leading, coded - exponent_bias + 127)
    };
    if coded == 0 {
        lemma_normalized_size(fraction, 128 - exponent_bias, leading);
    }
    let stored_exponent = if mantissa < leading {
        0
    } else {
        exponent
    };
    let stored_mantissa = if mantissa < leading {
        mantissa
    } else {
        mantissa - leading
    };
    assert(0 <= stored_mantissa * rest < leading * rest) by (nonlinear_arith)
        requires
            0 <= stored_mantissa < leading,
            rest >= 1,
    ;
    let low = stored_exponent * 0x80_0000 + stored_mantissa * rest;
    assert(0 <= low < 0x8000_0000);
    let pattern = scaling::single_pattern(sample, scaled, mantissa_length, exponent_bias)->Ok_0 as int;
    assert(pattern == low + if value < 0 {
        0x8000_0000int
    } else {
        0
    });
    assert(pattern % 0x8000_0000 / 0x80_0000 == stored_exponent);
    assert(pattern % 0x80_0000 == stored_mantissa * rest);
    let up = (mantissa_length + exponent_bias + 128) as nat;
    let ours = size_of(stored_exponent, stored_mantissa * rest, 0x80_0000);
    let theirs = size_of(coded, fraction, leading);
    assert((leading + stored_mantissa) * rest == 0x80_0000 + stored_mantissa * rest)
        by (nonlinear_arith)
        requires
            leading * rest == 0x80_0000,
    ;
    if coded == 0 {
        // Both sides are the fraction, moved up by the same number of bits.
        let start = (127 - exponent_bias) as nat;
        assert(ours == mantissa * rest * pow2((exponent - 1) as nat)) by {
            lemma_pow2_pos(0);
            if mantissa < leading {
                assert(mantissa == 0 || exponent == 1);
                assert(mantissa * rest * 1 == mantissa * rest);
                assert(mantissa == 0 ==> mantissa * rest * pow2((exponent - 1) as nat) == 0)
                    by (nonlinear_arith);
            }
        }
        lemma_product(mantissa, rest, pow2((exponent - 1) as nat) as int);
        lemma_product(fraction, rest, pow2(start) as int);
        assert(ours == fraction * (rest * pow2(start)));
        lemma_pow2_adds((23 - length) as nat, start);
        lemma_pow2_adds(((23 - length) + start) as nat, up);
        assert(fraction * pow2(((23 - length) + start) as nat) * pow2(up) == fraction * (pow2(
            ((23 - length) + start) as nat,
        ) * pow2(up))) by (nonlinear_arith);
    } else {
        let start = (coded - exponent_bias + 126) as nat;
        let before = (coded - 1) as nat;
        let above = leading + fraction;
        assert(ours == above * rest * pow2(start));
        assert(above * rest * pow2(start) == above * (rest * pow2(start))) by (nonlinear_arith);
        lemma_pow2_adds((23 - length) as nat, start);
        lemma_pow2_adds(((23 - length) + start) as nat, up);
        lemma_pow2_adds(before, 278);
        let total = pow2(((23 - length) + start) as nat) as int;
        assert(above * total * pow2(up) == above * (total * pow2(up))) by (nonlinear_arith);
        assert(above * pow2(before) * pow2(278) == above * (pow2(before) * pow2(278)))
            by (nonlinear_arith);
    }
}

/// Three factors can be multiplied in any order.
proof fn lemma_product(first: int, second: int, third: int)
    ensures
        first * second * third == first * third * second,
        first * third * second == first * (second * third),
{
    assert(first * second * third == first * third * second) by (nonlinear_arith);
    assert(first * third * second == first * (second * third)) by (nonlinear_arith);
}

} // verus!
