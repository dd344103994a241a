//! Assembling procedural-noise images: noise samples in, RGBA texture
//! bytes out. Sampling the noise and uploading the texture are the
//! driver's job.

use vstd::prelude::*;

verus! {

/// A channel value floored to its quantization step.
pub open spec fn spec_quantize(c: u8, step: u8) -> u8
    recommends
        step >= 1,
{
    ((c / step) * step) as u8
}

/// A channel value floored to its quantization step, on machine words.
fn quantize8(c: u8, step: u8) -> (r: u8)
    requires
        step >= 1,
    ensures
        r == spec_quantize(c, step),
{
    proof {
        vstd::arithmetic::div_mod::lemma_fundamental_div_mod(c as int, step as int);
        vstd::arithmetic::div_mod::lemma_mod_bound(c as int, step as int);
        assert((c as int / step as int) * (step as int) == c - (c as int % step as int))
            by (nonlinear_arith)
            requires
                c == (step as int) * (c as int / step as int) + (c as int % step as int),
        ;
    }
    (c / step) * step
}

/// The byte at offset `t` of the assembled image: red, green and blue
/// are copied, and the alpha of each four-byte group repeats the
/// group's red channel.
pub open spec fn spec_noise_byte(s: Seq<u8>, t: int) -> u8
    recommends
        0 <= t < s.len(),
{
    if t % 4 == 3 {
        s[t - 3]
    } else {
        s[t]
    }
}

/// Texture bytes of a solid noise image from rendered colors given as
/// four-byte groups.
pub fn noise_image_bytes(samples: &Vec<u8>) -> (r: Vec<u8>)
    requires
        samples@.len() % 4 == 0,
    ensures
        r@.len() == samples@.len(),
        forall|t: int| 0 <= t < r@.len() ==> #[trigger] r@[t] == spec_noise_byte(samples@, t),
{
    let n: usize = samples.len();
    let mut out: Vec<u8> = Vec::new();
    let mut i: usize = 0;
    while n - i >= 4
        invariant
            n == samples@.len(),
            n % 4 == 0,
            i % 4 == 0,
            i <= n,
            out@.len() == i,
            forall|t: int| 0 <= t < i ==> #[trigger] out@[t] == spec_noise_byte(samples@, t),
        decreases n - i,
    {
        out.push(samples[i]);
        out.push(samples[i + 1]);
        out.push(samples[i + 2]);
        out.push(samples[i]);
        proof {
            assert((i + 3) % 4 == 3 && (i + 2) % 4 == 2 && (i + 1) % 4 == 1 && i % 4 == 0);
        }
        i = i + 4;
    }
    out
}

/// Texture bytes of a shaded noise image: as `noise_image_bytes`, with
/// every channel floored to one of the given number of shades.
pub fn noise_image_bytes_shaded(samples: &Vec<u8>, number_of_shades: u8) -> (r: Vec<u8>)
    requires
        samples@.len() % 4 == 0,
        number_of_shades >= 1,
    ensures
        r@.len() == samples@.len(),
        forall|t: int|
            0 <= t < r@.len() ==> #[trigger] r@[t] == spec_quantize(
                spec_noise_byte(samples@, t),
                255u8 / number_of_shades,
            ),
{
    proof {
        vstd::arithmetic::div_mod::lemma_div_non_zero(255, number_of_shades as int);
    }
    let step: u8 = 255 / number_of_shades;
    let n: usize = samples.len();
    let mut out: Vec<u8> = Vec::new();
    let mut i: usize = 0;
    while n - i >= 4
        invariant
            n == samples@.len(),
            n % 4 == 0,
            i % 4 == 0,
            i <= n,
            step >= 1,
            step == 255u8 / number_of_shades,
            out@.len() == i,
            forall|t: int|
                0 <= t < i ==> #[trigger] out@[t] == spec_quantize(
                    spec_noise_byte(samples@, t),
                    step,
                ),
        decreases n - i,
    {
        out.push(quantize8(samples[i], step));
        out.push(quantize8(samples[i + 1], step));
        out.push(quantize8(samples[i + 2], step));
        out.push(quantize8(samples[i], step));
        proof {
            assert((i + 3) % 4 == 3 && (i + 2) % 4 == 2 && (i + 1) % 4 == 1 && i % 4 == 0);
        }
        i = i + 4;
    }
    out
}

} // verus!
