use vstd::prelude::*;

verus! {

/// Mask of the magnitude bits of a single-precision bit pattern.
pub const MAGNITUDE_MASK: u32 = 0x7fff_ffff;

/// Magnitude bits of the positive infinity pattern; anything above is NaN.
pub const INFINITY_BITS: u32 = 0x7f80_0000;

/// The integer that stands for the single-precision value with bit pattern
/// `bits`: a pattern with the sign bit clear keeps its value, one with the sign
/// bit set maps to minus its magnitude, less one, so that negative zero lies
/// below positive zero.
pub open spec fn key_of(bits: u32) -> int {
    if bits < 0x8000_0000 {
        bits as int
    } else {
        -((bits - 0x8000_0000) as int) - 1
    }
}

/// `bits` is the pattern of a NaN.
pub open spec fn is_nan_bits(bits: u32) -> bool {
    bits % 0x8000_0000 > 0x7f80_0000
}

/// Integer order key of a single-precision bit pattern. Over values that are
/// not NaN the key is strictly increasing in the value, with negative zero
/// placed just below positive zero; a key is negative exactly when the sign bit
/// is set, and positive exactly when the value is above zero.
pub fn order_key(bits: u32) -> (r: i64)
    ensures
        r as int == key_of(bits),
        (r < 0) == (bits >= 0x8000_0000),
{
    if bits < 0x8000_0000 {
        bits as i64
    } else {
        let mag: u32 = bits & MAGNITUDE_MASK;
        assert(mag == bits - 0x8000_0000) by (bit_vector)
            requires bits >= 0x8000_0000u32, mag == bits & 0x7fff_ffffu32;
        -(mag as i64) - 1
    }
}

fn nan_bits(bits: u32) -> (r: bool)
    ensures
        r == is_nan_bits(bits),
{
    let mag: u32 = bits & MAGNITUDE_MASK;
    assert(mag == bits % 0x8000_0000) by (bit_vector)
        requires mag == bits & 0x7fff_ffffu32;
    mag > INFINITY_BITS
}

/// Key of a sample value for the peak scan. A NaN is not above zero, so it
/// takes the lowest key and separates runs like any non-positive value.
pub fn value_key(bits: u32) -> (r: i64)
    ensures
        is_nan_bits(bits) ==> r == i64::MIN,
        !is_nan_bits(bits) ==> r as int == key_of(bits),
{
    if nan_bits(bits) {
        i64::MIN
    } else {
        order_key(bits)
    }
}

/// Key of a threshold. No comparison with a NaN holds, so no value passes a
/// NaN threshold: it takes the highest key.
pub fn threshold_key(bits: u32) -> (r: i64)
    ensures
        is_nan_bits(bits) ==> r == i64::MAX,
        !is_nan_bits(bits) ==> r as int == key_of(bits),
{
    if nan_bits(bits) {
        i64::MAX
    } else {
        order_key(bits)
    }
}

/// Keys of a sequence of sample bit patterns, one for one.
pub fn value_keys(bits: &[u32]) -> (r: Vec<i64>)
    ensures
        r@.len() == bits@.len(),
        forall|i: int|
            0 <= i < r@.len() ==> (if is_nan_bits(bits@[i]) {
                r@[i] == i64::MIN
            } else {
                r@[i] as int == key_of(bits@[i])
            }),
{
    let mut out: Vec<i64> = Vec::with_capacity(bits.len());
    let mut i: usize = 0;
    while i < bits.len()
        invariant
            i <= bits@.len(),
            out@.len() == i,
            forall|k: int|
                0 <= k < i ==> (if is_nan_bits(bits@[k]) {
                    out@[k] == i64::MIN
                } else {
                    out@[k] as int == key_of(bits@[k])
                }),
        decreases bits@.len() - i,
    {
        out.push(value_key(bits[i]));
        i = i + 1;
    }
    out
}

} // verus!
