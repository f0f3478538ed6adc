use vstd::prelude::*;

verus! {

/// `255^6`, the scale on the right of the exact gamma comparison.
pub const SCALE6: u128 = 274941996890625;

pub open spec fn pow5(n: int) -> int {
    n * n * n * n * n
}

pub open spec fn pow11(n: int) -> int {
    n * n * n * n * n * n * n * n * n * n * n
}

/// `r` is `floor(255 * (c / 255)^2.2)`, computed exactly: with `2.2 = 11 / 5`,
/// `255 * (c / 255)^(11/5) >= r` holds iff `r^5 * 255^6 <= c^11`.
pub open spec fn is_gamma_of(c: int, r: int) -> bool {
    pow5(r) * 274941996890625 <= pow11(c) < pow5(r + 1) * 274941996890625
}

/// A palette entry: four 8-bit channels.
#[derive(Clone, Copy, Debug, PartialEq, Eq, Structural)]
pub struct PaletteColor {
    pub r: u8,
    pub g: u8,
    pub b: u8,
    pub a: u8,
}

proof fn lemma_mul_mono(a: int, b: int, x: int, y: int)
    requires
        0 <= a <= x,
        0 <= b <= y,
    ensures
        0 <= a * b <= x * y,
{
    assert(0 <= a * b <= x * y) by (nonlinear_arith)
        requires
            0 <= a <= x,
            0 <= b <= y,
    ;
}

proof fn lemma_pow5_mono(a: int, b: int)
    requires
        0 <= a <= b,
    ensures
        0 <= pow5(a) <= pow5(b),
{
    lemma_mul_mono(a, a, b, b);
    lemma_mul_mono(a * a, a, b * b, b);
    lemma_mul_mono(a * a * a, a, b * b * b, b);
    lemma_mul_mono(a * a * a * a, a, b * b * b * b, b);
}

fn pow5_u128(q: u128) -> (r: u128)
    requires
        q <= 256,
    ensures
        r as int == pow5(q as int),
        r <= 1099511627776,
{
    proof {
        lemma_mul_mono(q as int, q as int, 256, 256);
        lemma_mul_mono(q * q, q as int, 65536, 256);
        lemma_mul_mono(q * q * q, q as int, 16777216, 256);
        lemma_mul_mono(q * q * q * q, q as int, 4294967296, 256);
    }
    q * q * q * q * q
}

fn pow11_u128(c: u8) -> (r: u128)
    ensures
        r as int == pow11(c as int),
{
    let q = c as u128;
    proof {
        let n = q as int;
        lemma_mul_mono(n, n, 255, 255);
        lemma_mul_mono(n * n, n, 65025, 255);
        lemma_mul_mono(n * n * n, n, 16581375, 255);
        lemma_mul_mono(n * n * n * n, n, 4228250625, 255);
        lemma_mul_mono(n * n * n * n * n, n, 1078203909375, 255);
        lemma_mul_mono(n * n * n * n * n * n, n, 274941996890625, 255);
        lemma_mul_mono(n * n * n * n * n * n * n, n, 70110209207109375, 255);
        lemma_mul_mono(n * n * n * n * n * n * n * n, n, 17878103347812890625, 255);
        lemma_mul_mono(n * n * n * n * n * n * n * n * n, n, 4558916353692287109375, 255);
        lemma_mul_mono(
            n * n * n * n * n * n * n * n * n * n,
            n,
            1162523670191533212890625,
            255,
        );
    }
    q * q * q * q * q * q * q * q * q * q * q
}

/// Applies the gamma curve of exponent 2.2 to one 8-bit channel, truncating
/// the rescaled result.
pub fn gamma_channel(c: u8) -> (r: u8)
    ensures
        is_gamma_of(c as int, r as int),
{
    let target = pow11_u128(c);
    let mut r: u128 = 0;
    assert(pow5(0) == 0);
    while r < 255
        invariant
            r <= 255,
            pow5(r as int) * SCALE6 <= target,
            target == pow11(c as int),
        decreases 255 - r,
    {
        let p = pow5_u128(r + 1);
        proof {
            lemma_mul_mono(p as int, SCALE6 as int, 1099511627776, SCALE6 as int);
        }
        if p * SCALE6 > target {
            assert(pow5(r as int + 1) * SCALE6 > target);
            return r as u8;
        }
        r = r + 1;
    }
    proof {
        lemma_pow5_mono(c as int, 255);
        let n = c as int;
        assert(pow11(n) == pow5(n) * n * n * n * n * n * n);
        lemma_mul_mono(pow5(n), n, pow5(255), 255);
        lemma_mul_mono(pow5(n) * n, n, pow5(255) * 255, 255);
        lemma_mul_mono(pow5(n) * n * n, n, pow5(255) * 255 * 255, 255);
        lemma_mul_mono(pow5(n) * n * n * n, n, pow5(255) * 255 * 255 * 255, 255);
        lemma_mul_mono(pow5(n) * n * n * n * n, n, pow5(255) * 255 * 255 * 255 * 255, 255);
        lemma_mul_mono(pow5(n) * n * n * n * n * n, n, pow5(255) * 255 * 255 * 255 * 255 * 255, 255);
        assert(pow5(256) > pow5(255));
        assert(pow5(255) * SCALE6 < pow5(256) * SCALE6) by (nonlinear_arith)
            requires pow5(256) > pow5(255), SCALE6 > 0;
    }
    255
}

/// Gamma-corrects the three color channels of a palette entry.
pub fn gamma_correction(r: u8, g: u8, b: u8) -> (out: (u8, u8, u8))
    ensures
        is_gamma_of(r as int, out.0 as int),
        is_gamma_of(g as int, out.1 as int),
        is_gamma_of(b as int, out.2 as int),
{
    (gamma_channel(r), gamma_channel(g), gamma_channel(b))
}

pub open spec fn corrected(c: PaletteColor, d: PaletteColor) -> bool {
    &&& is_gamma_of(c.r as int, d.r as int)
    &&& is_gamma_of(c.g as int, d.g as int)
    &&& is_gamma_of(c.b as int, d.b as int)
    &&& d.a == 255
}

/// Corrects every entry of a palette, keeping the order of entries.
pub fn correct_palette(palette: &Vec<PaletteColor>) -> (out: Vec<PaletteColor>)
    ensures
        out@.len() == palette@.len(),
        forall|i: int| 0 <= i < palette@.len() ==> corrected(#[trigger] palette@[i], out@[i]),
{
    let mut out: Vec<PaletteColor> = Vec::new();
    let mut i: usize = 0;
    while i < palette.len()
        invariant
            i <= palette@.len(),
            out@.len() == i,
            forall|j: int| 0 <= j < i ==> corrected(#[trigger] palette@[j], out@[j]),
        decreases palette@.len() - i,
    {
        let c = palette[i];
        let (r, g, b) = gamma_correction(c.r, c.g, c.b);
        out.push(PaletteColor { r, g, b, a: 255 });
        i += 1;
    }
    out
}

} // verus!
