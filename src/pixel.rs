use vstd::arithmetic::div_mod::{lemma_fundamental_div_mod_converse, lemma_multiply_divide_lt};
use vstd::prelude::*;

verus! {

/// One gamma-encoded RGBA sample, eight bits per channel.
#[derive(Debug, Clone, Copy, PartialEq, Eq, Structural)]
pub struct Rgba8 {
    pub r: u8,
    pub g: u8,
    pub b: u8,
    pub a: u8,
}

/// A non-negative rational channel value `num / den`.
#[derive(Debug, Clone, Copy, PartialEq, Eq, Structural)]
pub struct Ratio {
    pub num: u64,
    pub den: u64,
}

/// A pixel in linear light: four channels, nominally in `[0, 1]`.
#[derive(Debug, Clone, Copy, PartialEq, Eq, Structural)]
pub struct LinearPixel {
    pub red: Ratio,
    pub green: Ratio,
    pub blue: Ratio,
    pub alpha: Ratio,
}

/// The largest channel value, which stands for full intensity.
pub const CHANNEL_MAX: u64 = 255;

impl Ratio {
    pub open spec fn wf(self) -> bool {
        self.den > 0
    }

    /// `num / den` is exactly the byte `c` divided by 255.
    pub open spec fn is_byte(self, c: int) -> bool {
        self.wf() && 255 * self.num == c * self.den
    }
}

impl LinearPixel {
    pub open spec fn wf(self) -> bool {
        self.red.wf() && self.green.wf() && self.blue.wf() && self.alpha.wf()
    }

    /// Every channel is a byte over 255, as `to_linear` makes them.
    pub open spec fn from_bytes(self) -> bool {
        self.red.den == 255 && self.red.num <= 255 && self.green.den == 255 && self.green.num
            <= 255 && self.blue.den == 255 && self.blue.num <= 255 && self.alpha.den == 255
            && self.alpha.num <= 255
    }
}

/// `num / den` rounded to the nearest integer, halves away from zero
/// (for `num >= 0`, `den > 0`).
pub open spec fn round_div(num: int, den: int) -> int {
    (2 * num + den) / (2 * den)
}

/// A linear channel clamped to `[0, 1]`, scaled to `[0, 255]` and rounded.
pub open spec fn byte_of(q: Ratio) -> int {
    if q.num >= q.den {
        255
    } else {
        round_div(255 * q.num, q.den as int)
    }
}

pub open spec fn linear_of_byte(c: u8) -> Ratio {
    Ratio { num: c as u64, den: 255 }
}

pub open spec fn to_linear_spec(p: Rgba8) -> LinearPixel {
    LinearPixel {
        red: linear_of_byte(p.r),
        green: linear_of_byte(p.g),
        blue: linear_of_byte(p.b),
        alpha: linear_of_byte(p.a),
    }
}

pub open spec fn from_linear_spec(l: LinearPixel) -> Rgba8 {
    Rgba8 {
        r: byte_of(l.red) as u8,
        g: byte_of(l.green) as u8,
        b: byte_of(l.blue) as u8,
        a: byte_of(l.alpha) as u8,
    }
}

/// `255^2` times the "over" alpha `sa + da * (1 - sa)`, for `sa = s / 255`
/// and `da = d / 255`.
pub open spec fn over_alpha_num(s: int, d: int) -> int {
    255 * s + d * (255 - s)
}

/// `255 * over_alpha_num(sa, da)` times the "over" color
/// `(sc * sa + dc * da * (1 - sa)) / out_a`, all channels being bytes over 255.
pub open spec fn over_color_num(sc: int, sa: int, dc: int, da: int) -> int {
    255 * sc * sa + dc * da * (255 - sa)
}

pub open spec fn over_color(sc: int, sa: int, dc: int, da: int) -> Ratio {
    if over_alpha_num(sa, da) > 0 {
        Ratio {
            num: over_color_num(sc, sa, dc, da) as u64,
            den: (255 * over_alpha_num(sa, da)) as u64,
        }
    } else {
        Ratio { num: 0, den: 1 }
    }
}

/// Porter-Duff "over" of `s` on `d`, for linear pixels whose channels are
/// bytes over 255: a zero result alpha gives transparent black.
pub open spec fn over_spec(s: LinearPixel, d: LinearPixel) -> LinearPixel {
    let sa = s.alpha.num as int;
    let da = d.alpha.num as int;
    LinearPixel {
        red: over_color(s.red.num as int, sa, d.red.num as int, da),
        green: over_color(s.green.num as int, sa, d.green.num as int, da),
        blue: over_color(s.blue.num as int, sa, d.blue.num as int, da),
        alpha: Ratio { num: over_alpha_num(sa, da) as u64, den: 65025 },
    }
}

/// The pixel that blending `s` over `d` in linear light gives.
pub open spec fn blend_spec(s: Rgba8, d: Rgba8) -> Rgba8 {
    from_linear_spec(over_spec(to_linear_spec(s), to_linear_spec(d)))
}

/// A channel whose value is exactly `c / 255` comes back as `c`.
pub proof fn lemma_byte_of_exact(q: Ratio, c: int)
    requires
        q.is_byte(c),
        0 <= c <= 255,
    ensures
        byte_of(q) == c,
{
    let den = q.den as int;
    let num = q.num as int;
    if c == 255 {
        assert(num == den) by (nonlinear_arith)
            requires
                255 * num == c * den,
                c == 255,
        ;
    } else {
        assert(num < den) by (nonlinear_arith)
            requires
                255 * num == c * den,
                c < 255,
                den > 0,
        ;
        assert(2 * (255 * num) + den == c * (2 * den) + den) by (nonlinear_arith)
            requires
                255 * num == c * den,
        ;
        lemma_fundamental_div_mod_converse(2 * (255 * num) + den, 2 * den, c, den);
    }
}

proof fn lemma_channel_opaque(sc: int, dc: int, da: int)
    requires
        0 <= sc <= 255,
        0 <= dc <= 255,
        0 <= da <= 255,
    ensures
        byte_of(over_color(sc, 255, dc, da)) == sc,
{
    let q = over_color(sc, 255, dc, da);
    assert(q.num == 65025 * sc && q.den == 255 * 65025);
    lemma_byte_of_exact(q, sc);
}

proof fn lemma_channel_under_clear(sc: int, dc: int, da: int)
    requires
        0 <= sc <= 255,
        0 <= dc <= 255,
        0 < da <= 255,
    ensures
        byte_of(over_color(sc, 0, dc, da)) == dc,
{
    assert(0 <= dc * da <= 255 * 255) by (nonlinear_arith)
        requires
            0 <= dc <= 255,
            0 < da <= 255,
    ;
    let q = over_color(sc, 0, dc, da);
    assert(q.num == dc * da * 255 && q.den == 255 * (255 * da));
    assert(255 * q.num == dc * q.den) by (nonlinear_arith)
        requires
            q.num == dc * da * 255,
            q.den == 255 * (255 * da),
    ;
    lemma_byte_of_exact(q, dc);
}

/// A fully opaque source hides the destination: blending it over any pixel
/// gives the source itself, exactly.
pub proof fn lemma_over_opaque(s: Rgba8, d: Rgba8)
    requires
        s.a == 255,
    ensures
        blend_spec(s, d) == s,
{
    lemma_channel_opaque(s.r as int, d.r as int, d.a as int);
    lemma_channel_opaque(s.g as int, d.g as int, d.a as int);
    lemma_channel_opaque(s.b as int, d.b as int, d.a as int);
    lemma_byte_of_exact(Ratio { num: 65025, den: 65025 }, 255);
}

/// A source with zero alpha leaves the destination as it was, whenever the
/// destination is visible or is transparent black. (A destination with zero
/// alpha but some color comes out as transparent black.)
pub proof fn lemma_over_transparent(s: Rgba8, d: Rgba8)
    requires
        s.a == 0,
        d.a > 0 || d.transparent_black(),
    ensures
        blend_spec(s, d) == d,
{
    if d.a > 0 {
        lemma_channel_under_clear(s.r as int, d.r as int, d.a as int);
        lemma_channel_under_clear(s.g as int, d.g as int, d.a as int);
        lemma_channel_under_clear(s.b as int, d.b as int, d.a as int);
    }
    let q = Ratio { num: over_alpha_num(0, d.a as int) as u64, den: 65025 };
    assert(q.num == 255 * d.a);
    lemma_byte_of_exact(q, d.a as int);
    let l = over_spec(to_linear_spec(s), to_linear_spec(d));
    assert(l.alpha == q);
    if d.a == 0 {
        lemma_byte_of_exact(Ratio { num: 0, den: 1 }, 0);
        assert(l.red == Ratio { num: 0, den: 1 });
    }
    assert(byte_of(l.red) == d.r);
    assert(byte_of(l.green) == d.g);
    assert(byte_of(l.blue) == d.b);
    assert(byte_of(l.alpha) == d.a);
}

/// Converting a pixel to linear light and back gives the same pixel.
pub proof fn lemma_round_trip(p: Rgba8)
    ensures
        from_linear_spec(to_linear_spec(p)) == p,
{
    lemma_byte_of_exact(linear_of_byte(p.r), p.r as int);
    lemma_byte_of_exact(linear_of_byte(p.g), p.g as int);
    lemma_byte_of_exact(linear_of_byte(p.b), p.b as int);
    lemma_byte_of_exact(linear_of_byte(p.a), p.a as int);
}

impl Rgba8 {
    pub open spec fn transparent_black(self) -> bool {
        self.r == 0 && self.g == 0 && self.b == 0 && self.a == 0
    }

    /// The sample in linear light: each channel divided by 255.
    pub fn to_linear(self) -> (l: LinearPixel)
        ensures
            l == to_linear_spec(self),
            l.wf(),
            l.from_bytes(),
    {
        LinearPixel {
            red: Ratio { num: self.r as u64, den: CHANNEL_MAX },
            green: Ratio { num: self.g as u64, den: CHANNEL_MAX },
            blue: Ratio { num: self.b as u64, den: CHANNEL_MAX },
            alpha: Ratio { num: self.a as u64, den: CHANNEL_MAX },
        }
    }

    /// Back to eight bits: each channel clamped to `[0, 1]`, scaled by 255
    /// and rounded to the nearest integer.
    pub fn from_linear(color: LinearPixel) -> (p: Rgba8)
        requires
            color.wf(),
        ensures
            p == from_linear_spec(color),
    {
        Rgba8 {
            r: channel_byte(color.red),
            g: channel_byte(color.green),
            b: channel_byte(color.blue),
            a: channel_byte(color.alpha),
        }
    }
}

fn channel_byte(q: Ratio) -> (c: u8)
    requires
        q.wf(),
    ensures
        c as int == byte_of(q),
        byte_of(q) <= 255,
{
    if q.num >= q.den {
        255
    } else {
        let n: u128 = 510 * (q.num as u128) + q.den as u128;
        let d: u128 = 2 * (q.den as u128);
        proof {
            lemma_multiply_divide_lt(n as int, d as int, 256);
        }
        (n / d) as u8
    }
}

fn over_channel(sc: u64, sa: u64, dc: u64, da: u64) -> (q: Ratio)
    requires
        sc <= 255,
        sa <= 255,
        dc <= 255,
        da <= 255,
    ensures
        q == over_color(sc as int, sa as int, dc as int, da as int),
        q.wf(),
{
    proof {
        assert(da * (255 - sa) <= 255 * 255) by (nonlinear_arith)
            requires
                da <= 255,
                sa <= 255,
        ;
    }
    let alpha_num: u64 = 255 * sa + da * (255 - sa);
    if alpha_num > 0 {
        proof {
            assert(255 * sc * sa <= 255 * 255 * 255) by (nonlinear_arith)
                requires
                    sc <= 255,
                    sa <= 255,
            ;
            assert(dc * da <= 255 * 255) by (nonlinear_arith)
                requires
                    dc <= 255,
                    da <= 255,
            ;
            assert(dc * da * (255 - sa) <= 255 * 255 * 255) by (nonlinear_arith)
                requires
                    dc <= 255,
                    da <= 255,
                    sa <= 255,
            ;
        }
        Ratio { num: 255 * sc * sa + dc * da * (255 - sa), den: 255 * alpha_num }
    } else {
        Ratio { num: 0, den: 1 }
    }
}

impl LinearPixel {
    /// Porter-Duff "over": `self` composited on top of `dst`.
    pub fn over(self, dst: LinearPixel) -> (out: LinearPixel)
        requires
            self.from_bytes(),
            dst.from_bytes(),
        ensures
            out == over_spec(self, dst),
            out.wf(),
    {
        let sa = self.alpha.num;
        let da = dst.alpha.num;
        proof {
            assert(da * (255 - sa) <= 255 * 255) by (nonlinear_arith)
                requires
                    da <= 255,
                    sa <= 255,
            ;
        }
        LinearPixel {
            red: over_channel(self.red.num, sa, dst.red.num, da),
            green: over_channel(self.green.num, sa, dst.green.num, da),
            blue: over_channel(self.blue.num, sa, dst.blue.num, da),
            alpha: Ratio { num: 255 * sa + da * (255 - sa), den: 65025 },
        }
    }
}

/// Blends `src` over `dst` in linear light.
pub fn blend_rgba(src: Rgba8, dst: Rgba8) -> (out: Rgba8)
    ensures
        out == blend_spec(src, dst),
{
    let s = src.to_linear();
    let d = dst.to_linear();
    Rgba8::from_linear(s.over(d))
}

/// Blends one `(r, g, b, a)` pixel over another with the "over" operator.
pub fn blend_pixel(src: (u8, u8, u8, u8), dst: (u8, u8, u8, u8)) -> (out: (u8, u8, u8, u8))
    ensures
        ({
            let p = blend_spec(
                Rgba8 { r: src.0, g: src.1, b: src.2, a: src.3 },
                Rgba8 { r: dst.0, g: dst.1, b: dst.2, a: dst.3 },
            );
            out == (p.r, p.g, p.b, p.a)
        }),
{
    let p = blend_rgba(
        Rgba8 { r: src.0, g: src.1, b: src.2, a: src.3 },
        Rgba8 { r: dst.0, g: dst.1, b: dst.2, a: dst.3 },
    );
    (p.r, p.g, p.b, p.a)
}

} // verus!
