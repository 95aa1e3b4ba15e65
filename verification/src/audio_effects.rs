//! Integer effects applied to the 8-bit video signal.

use vstd::prelude::*;

verus! {

/// The bit depth that is actually used: `bits` clamped into `1..=8`.
pub open spec fn effective_bits(bits: u8) -> int {
    if bits < 1 {
        1
    } else if bits > 8 {
        8
    } else {
        bits as int
    }
}

/// Distance between two neighbouring quantisation levels at the given bit
/// depth: `256 / 2^bits`.
pub open spec fn quantum(bits: u8) -> int {
    let b = effective_bits(bits);
    if b == 1 {
        128
    } else if b == 2 {
        64
    } else if b == 3 {
        32
    } else if b == 4 {
        16
    } else if b == 5 {
        8
    } else if b == 6 {
        4
    } else if b == 7 {
        2
    } else {
        1
    }
}

/// The level step is `2^(8 - b)` for the effective depth `b`, so a
/// `b`-bit signal has `2^b` levels spanning the 256 byte values.
pub proof fn lemma_quantum_power_of_two(bits: u8)
    ensures
        quantum(bits) == vstd::arithmetic::power2::pow2((8 - effective_bits(bits)) as nat),
        quantum(bits) * vstd::arithmetic::power2::pow2(effective_bits(bits) as nat) == 256,
{
    vstd::arithmetic::power2::lemma2_to64();
}

/// A sample rounded down to the nearest quantisation level.
pub open spec fn quantized(sample: u8, bits: u8) -> int {
    (sample as int / quantum(bits)) * quantum(bits)
}

/// Round one sample down to the nearest level of a `bits`-bit signal.
pub fn quantize_sample(sample: u8, bits: u8) -> (out: u8)
    ensures
        out == quantized(sample, bits),
        out <= sample,
        sample < out + quantum(bits),
        out as int % quantum(bits) == 0,
{
    let step: u8 = if bits <= 1 {
        128
    } else if bits == 2 {
        64
    } else if bits == 3 {
        32
    } else if bits == 4 {
        16
    } else if bits == 5 {
        8
    } else if bits == 6 {
        4
    } else if bits == 7 {
        2
    } else {
        1
    };
    assert(step as int == quantum(bits));
    let q: u8 = sample / step;
    proof {
        lemma_floor_level(sample as int, step as int);
    }
    q * step
}

proof fn lemma_floor_level(s: int, step: int)
    requires
        0 <= s,
        0 < step,
    ensures
        (s / step) * step <= s,
        s < (s / step) * step + step,
        ((s / step) * step) % step == 0,
{
    let q = s / step;
    vstd::arithmetic::div_mod::lemma_fundamental_div_mod(s, step);
    vstd::arithmetic::mul::lemma_mul_is_commutative(step, q);
    vstd::arithmetic::div_mod::lemma_mod_multiples_basic(q, step);
    assert(0 <= s % step < step) by {
        vstd::arithmetic::div_mod::lemma_mod_bound(s, step);
    }
}

/// A signal with every sample quantised.
pub open spec fn crushed(signal: Seq<u8>, bits: u8) -> Seq<u8> {
    Seq::new(signal.len(), |i: int| quantized(signal[i], bits) as u8)
}

/// Number of quantisation levels at the given bit depth: `2^bits`, with
/// `bits` clamped into `1..=8`.
pub open spec fn levels(bits: u8) -> int {
    256int / quantum(bits)
}

/// Bit crushing: reduces the bit depth of the signal.
///
/// `bits` is clamped into `1..=8`; each sample is rounded down to a multiple
/// of `256 / 2^bits`.
pub fn bit_crush(signal: &[u8], bits: u8) -> (out: Vec<u8>)
    ensures
        out@ == crushed(signal@, bits),
        out.len() == signal.len(),
        forall|i: int| 0 <= i < signal.len() ==> out[i] == quantized(#[trigger] signal[i], bits),
{
    let mut out: Vec<u8> = Vec::with_capacity(signal.len());
    let mut i: usize = 0;
    while i < signal.len()
        invariant
            i <= signal.len(),
            out.len() == i,
            forall|j: int| 0 <= j < i ==> out[j] == quantized(#[trigger] signal[j], bits),
        decreases signal.len() - i,
    {
        let q = quantize_sample(signal[i], bits);
        out.push(q);
        i = i + 1;
    }
    assert(out@ =~= crushed(signal@, bits));
    out
}

/// Crushing twice is crushing once: a quantised sample is already on a
/// level.
pub proof fn lemma_quantize_idempotent(sample: u8, bits: u8)
    ensures
        0 <= quantized(sample, bits) <= sample,
        quantized(quantized(sample, bits) as u8, bits) == quantized(sample, bits),
{
    let q = quantum(bits);
    lemma_floor_level(sample as int, q);
    let k = sample as int / q;
    assert(quantized(sample, bits) == k * q);
    assert(k * q >= 0) by (nonlinear_arith)
        requires k >= 0, q > 0;
    vstd::arithmetic::div_mod::lemma_div_multiples_vanish(k, q);
    vstd::arithmetic::mul::lemma_mul_is_commutative(k, q);
}

/// Crushing keeps the order of samples: a louder sample never comes out
/// below a quieter one.
pub proof fn lemma_quantize_monotone(a: u8, b: u8, bits: u8)
    requires
        a <= b,
    ensures
        quantized(a, bits) <= quantized(b, bits),
{
    let q = quantum(bits);
    vstd::arithmetic::div_mod::lemma_div_is_ordered(a as int, b as int, q);
    vstd::arithmetic::mul::lemma_mul_inequality(a as int / q, b as int / q, q);
}

/// At eight bits (or more, as the depth is clamped) crushing changes nothing.
pub proof fn lemma_quantize_full_depth(sample: u8, bits: u8)
    requires
        bits >= 8,
    ensures
        quantized(sample, bits) == sample,
{
}

/// Posterisation: a crushed signal takes at most `levels(bits)` distinct
/// values, each a multiple of the level step no larger than its sample, and
/// crushing it again changes nothing.
pub proof fn lemma_bit_crush_levels(signal: Seq<u8>, bits: u8)
    ensures
        crushed(signal, bits).to_set().len() <= levels(bits),
        forall|i: int|
            0 <= i < signal.len() ==> (#[trigger] crushed(signal, bits)[i]) as int % quantum(bits) == 0
                && crushed(signal, bits)[i] <= signal[i],
        crushed(crushed(signal, bits), bits) == crushed(signal, bits),
{
    let c = crushed(signal, bits);
    let q = quantum(bits);
    let n = levels(bits);
    assert forall|i: int| 0 <= i < signal.len() implies (#[trigger] c[i]) as int % q == 0 && c[i]
        <= signal[i] && quantized(c[i], bits) == c[i] by {
        lemma_floor_level(signal[i] as int, q);
        lemma_quantize_idempotent(signal[i], bits);
    }
    assert(crushed(c, bits) =~= c);
    let v = c.to_set();
    let to_int = |x: u8| x as int;
    let w = v.map(to_int);
    let range = vstd::set_lib::set_int_range(0, n);
    let step = |k: int| k * q;
    let grid = range.map(step);
    vstd::seq_lib::seq_to_set_is_finite(c);
    vstd::set_lib::lemma_map_size(v, w, to_int);
    vstd::set_lib::lemma_int_range(0, n);
    vstd::set_lib::lemma_map_size_bound(range, grid, step);
    assert forall|x: int| w.contains(x) implies grid.contains(x) by {
        let y = choose|y: u8| v.contains(y) && to_int(y) == x;
        let i = choose|i: int| 0 <= i < c.len() && c[i] == y;
        assert(c[i] as int % q == 0);
        let k = x / q;
        vstd::arithmetic::div_mod::lemma_fundamental_div_mod(x, q);
        assert(x == k * q) by {
            vstd::arithmetic::mul::lemma_mul_is_commutative(q, k);
        }
        assert(0 <= k < n) by {
            vstd::arithmetic::div_mod::lemma_div_is_ordered(x, 255, q);
            assert(255int / q < n);
        }
        assert(range.contains(k));
        assert(step(k) == x);
    }
    vstd::set_lib::lemma_len_subset(w, grid);
}

/// `v` clamped into `lo..=hi`.
pub open spec fn clamp_int(v: int, lo: int, hi: int) -> int {
    if v < lo {
        lo
    } else if v > hi {
        hi
    } else {
        v
    }
}

/// Sample `i` of a carrier read at an offset: the carrier sample at
/// `i + offset`, clamped into the carrier.
pub open spec fn gathered(carrier: Seq<u8>, offsets: Seq<i32>, i: int) -> u8 {
    carrier[clamp_int(i + offsets[i], 0, carrier.len() - 1)]
}

/// The reading step of frequency modulation: output sample `i` is the
/// carrier sample at `i + offsets[i]`, clamped into the carrier, where
/// `offsets[i]` is the read offset the modulator gives at `i`. An empty
/// carrier gives an empty output.
pub fn fm_gather(carrier: &[u8], offsets: &[i32]) -> (out: Vec<u8>)
    requires
        carrier.len() <= i32::MAX,
        offsets.len() == carrier.len(),
    ensures
        out.len() == carrier.len(),
        forall|i: int| 0 <= i < out.len() ==> #[trigger] out@[i] == gathered(carrier@, offsets@, i),
        forall|i: int|
            0 <= i < out.len() && 0 <= i + offsets@[i] < carrier.len() ==> #[trigger] out@[i]
                == carrier@[i + offsets@[i]],
        forall|i: int| 0 <= i < out.len() && i + offsets@[i] < 0 ==> #[trigger] out@[i] == carrier@[0],
        forall|i: int|
            0 <= i < out.len() && i + offsets@[i] >= carrier.len() ==> #[trigger] out@[i]
                == carrier@[carrier.len() - 1],
{
    let mut out: Vec<u8> = Vec::with_capacity(carrier.len());
    if carrier.len() == 0 {
        return out;
    }
    let last: i64 = carrier.len() as i64 - 1;
    let mut i: usize = 0;
    while i < carrier.len()
        invariant
            carrier.len() <= i32::MAX,
            offsets.len() == carrier.len(),
            last == carrier.len() - 1,
            i <= carrier.len(),
            out.len() == i,
            forall|k: int| 0 <= k < i ==> #[trigger] out@[k] == gathered(carrier@, offsets@, k),
        decreases carrier.len() - i,
    {
        let pos: i64 = i as i64 + offsets[i] as i64;
        let read: i64 = if pos < 0 {
            0
        } else if pos > last {
            last
        } else {
            pos
        };
        out.push(carrier[read as usize]);
        i = i + 1;
    }
    out
}

} // verus!
