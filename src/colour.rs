use vstd::prelude::*;

verus! {

/// An 8-bit-per-channel RGB colour.
#[derive(Clone, Copy, Debug, PartialEq, Eq, Structural)]
pub struct Colour {
    pub r: u8,
    pub g: u8,
    pub b: u8,
}

/// The packed `0x00RRGGBB` word of a colour, as an integer.
pub open spec fn packed(c: Colour) -> int {
    c.r as int * 65536 + c.g as int * 256 + c.b as int
}

/// The colour held in the low three bytes of a packed word; the top byte is ignored.
pub open spec fn unpacked(w: u32) -> Colour {
    Colour {
        r: ((w as int / 65536) % 256) as u8,
        g: ((w as int / 256) % 256) as u8,
        b: (w as int % 256) as u8,
    }
}

/// `n / d` rounded to the nearest integer, halves rounded up.
pub open spec fn round_div(n: int, d: int) -> int {
    (2 * n + d) / (2 * d)
}

/// A channel scaled by the fraction `num / den`, rounded to the nearest value.
pub open spec fn scale_channel(num: int, den: int, c: int) -> int {
    round_div(num * c, den)
}

/// The colour scaled channel by channel by the fraction `num / den`.
pub open spec fn blended(num: int, den: int, c: Colour) -> Colour {
    Colour {
        r: scale_channel(num, den, c.r as int) as u8,
        g: scale_channel(num, den, c.g as int) as u8,
        b: scale_channel(num, den, c.b as int) as u8,
    }
}

impl Colour {
    pub fn black() -> (c: Colour)
        ensures
            c == (Colour { r: 0, g: 0, b: 0 }),
    {
        Colour { r: 0, g: 0, b: 0 }
    }

    pub fn white() -> (c: Colour)
        ensures
            c == (Colour { r: 255, g: 255, b: 255 }),
    {
        Colour { r: 255, g: 255, b: 255 }
    }

    pub fn red() -> (c: Colour)
        ensures
            c == (Colour { r: 255, g: 0, b: 0 }),
    {
        Colour { r: 255, g: 0, b: 0 }
    }

    pub fn green() -> (c: Colour)
        ensures
            c == (Colour { r: 0, g: 255, b: 0 }),
    {
        Colour { r: 0, g: 255, b: 0 }
    }

    pub fn blue() -> (c: Colour)
        ensures
            c == (Colour { r: 0, g: 0, b: 255 }),
    {
        Colour { r: 0, g: 0, b: 255 }
    }

    pub fn new(r: u8, g: u8, b: u8) -> (c: Colour)
        ensures
            c.r == r,
            c.g == g,
            c.b == b,
    {
        Colour { r, g, b }
    }

    /// Packs the colour into a `0x00RRGGBB` word.
    pub fn to_packed(self) -> (w: u32)
        ensures
            w as int == packed(self),
    {
        self.r as u32 * 65536 + self.g as u32 * 256 + self.b as u32
    }

    /// Reads a colour from the low three bytes of a packed word.
    pub fn from_packed(w: u32) -> (c: Colour)
        ensures
            c == unpacked(w),
    {
        Colour { r: ((w / 65536) % 256) as u8, g: ((w / 256) % 256) as u8, b: (w % 256) as u8 }
    }
}

impl From<Colour> for u32 {
    fn from(value: Colour) -> (w: u32) {
        value.to_packed()
    }
}

impl vstd::std_specs::convert::FromSpecImpl<Colour> for u32 {
    open spec fn obeys_from_spec() -> bool {
        true
    }

    open spec fn from_spec(v: Colour) -> u32 {
        packed(v) as u32
    }
}

impl From<u32> for Colour {
    fn from(value: u32) -> (c: Colour) {
        Colour::from_packed(value)
    }
}

impl vstd::std_specs::convert::FromSpecImpl<u32> for Colour {
    open spec fn obeys_from_spec() -> bool {
        true
    }

    open spec fn from_spec(v: u32) -> Colour {
        unpacked(v)
    }
}

proof fn lemma_scale_channel_bounds(num: int, den: int, c: int)
    requires
        0 <= num <= den,
        0 < den,
        0 <= c <= 255,
    ensures
        0 <= scale_channel(num, den, c) <= 255,
{
    assert(0 <= num * c <= den * 255) by (nonlinear_arith)
        requires
            0 <= num <= den,
            0 <= c <= 255,
    ;
    assert(0 <= (2 * (num * c) + den) / (2 * den) <= 255) by (nonlinear_arith)
        requires
            0 <= num * c <= den * 255,
            0 < den,
    ;
}

/// Scales a colour by the fraction `num / den`, which lies in `[0, 1]`: each
/// channel becomes `round(num / den * channel)`.
pub fn blend(num: u32, den: u32, colour: Colour) -> (c: Colour)
    requires
        0 < den,
        num <= den,
    ensures
        c == blended(num as int, den as int, colour),
{
    proof {
        lemma_scale_channel_bounds(num as int, den as int, colour.r as int);
        lemma_scale_channel_bounds(num as int, den as int, colour.g as int);
        lemma_scale_channel_bounds(num as int, den as int, colour.b as int);
    }
    let n = num as u64;
    let d = den as u64;
    assert(n * colour.r as u64 <= d * 255) by (nonlinear_arith)
        requires n <= d, colour.r <= 255;
    assert(n * colour.g as u64 <= d * 255) by (nonlinear_arith)
        requires n <= d, colour.g <= 255;
    assert(n * colour.b as u64 <= d * 255) by (nonlinear_arith)
        requires n <= d, colour.b <= 255;
    let r = ((2 * (n * colour.r as u64) + d) / (2 * d)) as u8;
    let g = ((2 * (n * colour.g as u64) + d) / (2 * d)) as u8;
    let b = ((2 * (n * colour.b as u64) + d) / (2 * d)) as u8;
    Colour { r, g, b }
}

/// Packing a colour into a word and reading it back gives the same colour.
pub proof fn lemma_pack_round_trip(c: Colour)
    ensures
        0 <= packed(c) < 0x1000000,
        unpacked(packed(c) as u32) == c,
{
    let r = c.r as int;
    let g = c.g as int;
    let b = c.b as int;
    let w = packed(c);
    assert(w / 65536 == r && (w / 256) % 256 == g && w % 256 == b) by (nonlinear_arith)
        requires
            w == r * 65536 + g * 256 + b,
            0 <= r < 256,
            0 <= g < 256,
            0 <= b < 256,
    ;
}

/// Scaling by one leaves every channel unchanged.
pub proof fn lemma_blend_identity(den: int, c: Colour)
    requires
        0 < den,
    ensures
        blended(den, den, c) == c,
{
    assert forall|x: int| 0 <= x <= 255 implies #[trigger] scale_channel(den, den, x) == x by {
        assert((2 * (den * x) + den) / (2 * den) == x) by (nonlinear_arith)
            requires
                0 < den,
                0 <= x,
        {
            assert(2 * (den * x) + den == x * (2 * den) + den) by (nonlinear_arith);
        }
    }
    assert(scale_channel(den, den, c.r as int) == c.r as int);
    assert(scale_channel(den, den, c.g as int) == c.g as int);
    assert(scale_channel(den, den, c.b as int) == c.b as int);
}

/// Scaling by zero gives black.
pub proof fn lemma_blend_zero(den: int, c: Colour)
    requires
        0 < den,
    ensures
        blended(0, den, c) == (Colour { r: 0, g: 0, b: 0 }),
{
    assert forall|x: int| 0 <= x <= 255 implies #[trigger] scale_channel(0, den, x) == 0 by {
        assert(0 * x == 0);
        assert(den / (2 * den) == 0) by (nonlinear_arith)
            requires
                0 < den,
        ;
    }
    assert(scale_channel(0, den, c.r as int) == 0);
    assert(scale_channel(0, den, c.g as int) == 0);
    assert(scale_channel(0, den, c.b as int) == 0);
}

proof fn lemma_scale_channel_monotonic(n1: int, d1: int, n2: int, d2: int, x: int)
    requires
        0 < d1,
        0 < d2,
        0 <= n1 <= d1,
        0 <= n2 <= d2,
        n1 * d2 <= n2 * d1,
        0 <= x <= 255,
    ensures
        scale_channel(n1, d1, x) <= scale_channel(n2, d2, x),
{
    let q1 = (2 * (n1 * x) + d1) / (2 * d1);
    let q2 = (2 * (n2 * x) + d2) / (2 * d2);
    assert(q1 * (2 * d1) <= 2 * (n1 * x) + d1) by (nonlinear_arith)
        requires
            q1 == (2 * (n1 * x) + d1) / (2 * d1),
            0 < d1,
    ;
    assert(q1 * (2 * d2) <= 2 * (n2 * x) + d2) by (nonlinear_arith)
        requires
            q1 * (2 * d1) <= 2 * (n1 * x) + d1,
            n1 * d2 <= n2 * d1,
            0 < d1,
            0 < d2,
            0 <= x,
    ;
    assert(q1 <= q2) by (nonlinear_arith)
        requires
            q1 * (2 * d2) <= 2 * (n2 * x) + d2,
            q2 == (2 * (n2 * x) + d2) / (2 * d2),
            0 < d2,
    ;
}

/// For fractions in `[0, 1]`, a larger fraction never gives a darker channel.
pub proof fn lemma_blend_monotonic(n1: int, d1: int, n2: int, d2: int, c: Colour)
    requires
        0 < d1,
        0 < d2,
        0 <= n1 <= d1,
        0 <= n2 <= d2,
        n1 * d2 <= n2 * d1,
    ensures
        blended(n1, d1, c).r <= blended(n2, d2, c).r,
        blended(n1, d1, c).g <= blended(n2, d2, c).g,
        blended(n1, d1, c).b <= blended(n2, d2, c).b,
{
    lemma_scale_channel_monotonic(n1, d1, n2, d2, c.r as int);
    lemma_scale_channel_monotonic(n1, d1, n2, d2, c.g as int);
    lemma_scale_channel_monotonic(n1, d1, n2, d2, c.b as int);
    lemma_scale_channel_bounds(n1, d1, c.r as int);
    lemma_scale_channel_bounds(n1, d1, c.g as int);
    lemma_scale_channel_bounds(n1, d1, c.b as int);
    lemma_scale_channel_bounds(n2, d2, c.r as int);
    lemma_scale_channel_bounds(n2, d2, c.g as int);
    lemma_scale_channel_bounds(n2, d2, c.b as int);
}

} // verus!
