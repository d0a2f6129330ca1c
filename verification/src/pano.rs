//! Panorama geometry for 360° playback: packings, coverage, and the triangles of a sphere and a
//! cube.
//!
//! A 360° video is an equirectangular image: longitude across, latitude down. Playing it back means
//! texturing the inside of a sphere with it and putting the camera at the centre. Here is what of
//! that is exact; single-precision numbers are carried as bit patterns.
use vstd::arithmetic::power2::*;
use vstd::prelude::*;

verus! {

/// How a stereoscopic frame packs its two eyes.
#[derive(Clone, Copy, PartialEq, Eq, Debug, Structural)]
pub enum StereoLayout {
    /// One image for both eyes.
    Mono,
    /// Left eye in the top half, right eye in the bottom.
    OverUnder,
    /// Left eye in the left half, right eye in the right.
    SideBySide,
    /// Both eyes in every pixel, separated by colour.
    Anaglyph,
    /// Eyes on alternating rows of the frame.
    RowInterleaved,
}

impl StereoLayout {
    /// The number that stands for the layout.
    pub open spec fn number(self) -> u32 {
        match self {
            StereoLayout::Mono => 0,
            StereoLayout::OverUnder => 1,
            StereoLayout::SideBySide => 2,
            StereoLayout::Anaglyph => 3,
            StereoLayout::RowInterleaved => 4,
        }
    }

    /// The layout that a number stands for; any other number is taken for one image.
    pub open spec fn of_number(v: u32) -> StereoLayout {
        match v {
            1 => StereoLayout::OverUnder,
            2 => StereoLayout::SideBySide,
            3 => StereoLayout::Anaglyph,
            4 => StereoLayout::RowInterleaved,
            _ => StereoLayout::Mono,
        }
    }

    /// The layout that a number stands for; any other number is taken for one image.
    pub fn from_raw(v: u32) -> (layout: StereoLayout)
        ensures
            layout == StereoLayout::of_number(v),
    {
        match v {
            1 => StereoLayout::OverUnder,
            2 => StereoLayout::SideBySide,
            3 => StereoLayout::Anaglyph,
            4 => StereoLayout::RowInterleaved,
            _ => StereoLayout::Mono,
        }
    }

    /// Whether each eye's picture is a rectangle of the frame, which is what [`uv_window`] can
    /// express on its own.
    pub open spec fn windowed(self) -> bool {
        self != StereoLayout::Anaglyph && self != StereoLayout::RowInterleaved
    }

    /// Whether each eye's picture is a rectangle of the frame, which is what [`uv_window`] can
    /// express on its own.
    pub fn is_windowed(self) -> (b: bool)
        ensures
            b == self.windowed(),
    {
        match self {
            StereoLayout::Anaglyph | StereoLayout::RowInterleaved => false,
            _ => true,
        }
    }
}

/// Which pair of complementary colours an anaglyph frame was encoded for, left eye first.
#[derive(Clone, Copy, PartialEq, Eq, Debug, Structural)]
pub enum AnaglyphPair {
    /// Left eye red, right eye cyan. What Matroska labels "cyan/red".
    RedCyan,
    /// Left eye green, right eye magenta.
    GreenMagenta,
    /// Left eye yellow, right eye blue.
    YellowBlue,
}

impl AnaglyphPair {
    /// The number that stands for the pair.
    pub open spec fn number(self) -> u32 {
        match self {
            AnaglyphPair::RedCyan => 0,
            AnaglyphPair::GreenMagenta => 1,
            AnaglyphPair::YellowBlue => 2,
        }
    }

    /// The pair that a number stands for; any other number is taken for red and cyan.
    pub open spec fn of_number(v: u32) -> AnaglyphPair {
        match v {
            1 => AnaglyphPair::GreenMagenta,
            2 => AnaglyphPair::YellowBlue,
            _ => AnaglyphPair::RedCyan,
        }
    }

    /// The pair that a number stands for; any other number is taken for red and cyan.
    pub fn from_raw(v: u32) -> (pair: AnaglyphPair)
        ensures
            pair == AnaglyphPair::of_number(v),
    {
        match v {
            1 => AnaglyphPair::GreenMagenta,
            2 => AnaglyphPair::YellowBlue,
            _ => AnaglyphPair::RedCyan,
        }
    }
}

/// Which eye a frame is being drawn for.
#[derive(Clone, Copy, PartialEq, Eq, Debug, Structural)]
pub enum Eye {
    Left,
    Right,
}

/// How much of each colour channel (red, green, blue) carries one eye's picture, in halves.
pub open spec fn channel_halves(pair: AnaglyphPair, eye: Eye) -> Seq<u8> {
    match (pair, eye) {
        (AnaglyphPair::RedCyan, Eye::Left) => seq![2, 0, 0],
        (AnaglyphPair::RedCyan, Eye::Right) => seq![0, 1, 1],
        (AnaglyphPair::GreenMagenta, Eye::Left) => seq![0, 2, 0],
        (AnaglyphPair::GreenMagenta, Eye::Right) => seq![1, 0, 1],
        (AnaglyphPair::YellowBlue, Eye::Left) => seq![1, 1, 0],
        (AnaglyphPair::YellowBlue, Eye::Right) => seq![0, 0, 2],
    }
}

/// How much of each colour channel (red, green, blue) carries one eye's picture, in halves.
///
/// A filter that passes two channels gets half of each: both hold the same eye's image.
pub fn anaglyph_mix(pair: AnaglyphPair, eye: Eye) -> (mix: [u8; 3])
    ensures
        mix@ == channel_halves(pair, eye),
{
    let mix: [u8; 3] = match (pair, eye) {
        (AnaglyphPair::RedCyan, Eye::Left) => [2, 0, 0],
        (AnaglyphPair::RedCyan, Eye::Right) => [0, 1, 1],
        (AnaglyphPair::GreenMagenta, Eye::Left) => [0, 2, 0],
        (AnaglyphPair::GreenMagenta, Eye::Right) => [1, 0, 1],
        (AnaglyphPair::YellowBlue, Eye::Left) => [1, 1, 0],
        (AnaglyphPair::YellowBlue, Eye::Right) => [0, 0, 2],
    };
    assert(mix@ =~= channel_halves(pair, eye));
    mix
}

/// Each anaglyph filter takes the channels the other leaves: the weights of an eye sum to one, so a
/// grey frame comes back at its own brightness, and every channel goes to exactly one eye.
pub proof fn the_filters_share_the_channels(pair: AnaglyphPair, eye: Eye, channel: int)
    requires
        0 <= channel < 3,
    ensures
        ({
            let mix = channel_halves(pair, eye);
            mix.len() == 3 && mix[0] + mix[1] + mix[2] == 2
        }),
        channel_halves(pair, Eye::Left)[channel] == 0 <==> channel_halves(pair, Eye::Right)[channel]
            != 0,
{
}

/// The colour channels (red, green, blue) that light of a pair's first or second colour is made of.
pub open spec fn shines_in(pair: AnaglyphPair, first: bool, channel: int) -> bool {
    let red = channel == 0;
    let green = channel == 1;
    let blue = channel == 2;
    match pair {
        AnaglyphPair::RedCyan => if first {
            red
        } else {
            green || blue
        },
        AnaglyphPair::GreenMagenta => if first {
            green
        } else {
            red || blue
        },
        AnaglyphPair::YellowBlue => if first {
            red || green
        } else {
            blue
        },
    }
}

/// The left eye sees the colour that a pair is named by first, and the right eye the other: an eye's
/// picture is in the channels of its colour and in no other, as much in each.
pub proof fn each_eye_sees_its_colour(pair: AnaglyphPair, eye: Eye, channel: int, other: int)
    requires
        0 <= channel < 3,
        0 <= other < 3,
    ensures
        channel_halves(pair, eye)[channel] > 0 <==> shines_in(pair, eye == Eye::Left, channel),
        shines_in(pair, eye == Eye::Left, channel) && shines_in(pair, eye == Eye::Left, other) ==>
            channel_halves(pair, eye)[channel] == channel_halves(pair, eye)[other],
{
}

/// The texture window one eye samples, as scale and offset across, then up, in halves.
pub open spec fn window_halves(layout: StereoLayout, eye: Eye) -> Seq<u8> {
    match (layout, eye) {
        (StereoLayout::OverUnder, Eye::Left) => seq![2, 0, 1, 1],
        (StereoLayout::OverUnder, Eye::Right) => seq![2, 0, 1, 0],
        (StereoLayout::SideBySide, Eye::Left) => seq![1, 0, 2, 0],
        (StereoLayout::SideBySide, Eye::Right) => seq![1, 1, 2, 0],
        _ => seq![2, 0, 2, 0],
    }
}

/// The texture window one eye samples, as `[u_scale, u_offset, v_scale, v_offset]` in halves.
///
/// Apply it to the texture coordinate: `uv' = uv * scale + offset`. Texture space runs bottom to
/// top, so the left eye of a stacked frame, which is its top half, gets the offset. Where the eyes
/// are separated by colour or by row, both cover the whole frame.
pub fn uv_window(layout: StereoLayout, eye: Eye) -> (window: [u8; 4])
    ensures
        window@ == window_halves(layout, eye),
{
    let second: bool = match eye {
        Eye::Left => false,
        Eye::Right => true,
    };
    let window: [u8; 4] = match layout {
        StereoLayout::OverUnder => [
            2,
            0,
            1,
            if second {
                0
            } else {
                1
            },
        ],
        StereoLayout::SideBySide => [
            1,
            if second {
                1
            } else {
                0
            },
            2,
            0,
        ],
        _ => [2, 0, 2, 0],
    };
    assert(window@ =~= window_halves(layout, eye));
    window
}

/// Stereo windows split the frame without overlap: within the frame, along the axis that is split
/// the two eyes take one half each, and along the other they take the whole.
pub proof fn windows_split_the_frame(layout: StereoLayout, eye: Eye)
    ensures
        ({
            let w = window_halves(layout, eye);
            let l = window_halves(layout, Eye::Left);
            let r = window_halves(layout, Eye::Right);
            &&& w.len() == 4
            &&& 0 < w[0] && w[0] + w[1] <= 2
            &&& 0 < w[2] && w[2] + w[3] <= 2
            &&& layout == StereoLayout::OverUnder ==> l[3] == r[3] + r[2] && l[2] + r[2] == 2
                && l[0] == 2 && r[0] == 2
            &&& layout == StereoLayout::SideBySide ==> r[1] == l[1] + l[0] && l[0] + r[0] == 2
                && l[2] == 2 && r[2] == 2
            &&& layout == StereoLayout::Mono || !layout.windowed() ==> l == r && l == seq![
                2u8,
                0,
                2,
                0,
            ]
        }),
{
}

/// How much of the sphere the footage covers.
#[derive(Clone, Copy, PartialEq, Eq, Debug, Structural)]
pub enum Projection {
    /// The full sphere: 360° across, 180° down.
    Equirect360,
    /// The front half only: 180° across, 180° down.
    Equirect180,
    /// Not a panorama at all: an ordinary rectangular picture, shown on a screen standing in the
    /// room.
    Flat,
    /// Six faces of a cube, as a 3x2 grid in one frame.
    Cubemap,
}

impl Projection {
    /// The number that stands for the projection.
    pub open spec fn number(self) -> u32 {
        match self {
            Projection::Equirect360 => 0,
            Projection::Equirect180 => 1,
            Projection::Flat => 2,
            Projection::Cubemap => 3,
        }
    }

    /// The projection that a number stands for; any other number is taken for the full sphere.
    pub open spec fn of_number(v: u32) -> Projection {
        match v {
            1 => Projection::Equirect180,
            2 => Projection::Flat,
            3 => Projection::Cubemap,
            _ => Projection::Equirect360,
        }
    }

    /// The projection that a number stands for; any other number is taken for the full sphere.
    pub fn from_raw(v: u32) -> (projection: Projection)
        ensures
            projection == Projection::of_number(v),
    {
        match v {
            1 => Projection::Equirect180,
            2 => Projection::Flat,
            3 => Projection::Cubemap,
            _ => Projection::Equirect360,
        }
    }

    /// Whether this projection wraps around the viewer at all.
    pub fn is_panoramic(self) -> (b: bool)
        ensures
            b == (self != Projection::Flat),
    {
        match self {
            Projection::Flat => false,
            _ => true,
        }
    }

    /// The equirectangular bounds this projection is shorthand for, if any.
    pub open spec fn crops(self) -> Option<Bounds> {
        match self {
            Projection::Equirect360 => Some(Bounds { top: 0, bottom: 0, left: 0, right: 0 }),
            Projection::Equirect180 => Some(
                Bounds { top: 0, bottom: 0, left: QUARTER, right: QUARTER },
            ),
            _ => None,
        }
    }

    /// The equirectangular bounds this projection is shorthand for, if any. The front half is a
    /// quarter of the sphere cropped from each side.
    pub fn bounds(self) -> (r: Option<Bounds>)
        ensures
            r == self.crops(),
    {
        match self {
            Projection::Equirect360 => Some(Bounds::full()),
            Projection::Equirect180 => Some(
                Bounds { top: 0, bottom: 0, left: QUARTER, right: QUARTER },
            ),
            _ => None,
        }
    }
}

/// Every layout, pair and projection reads back from its own number.
pub proof fn numbers_read_back(layout: StereoLayout, pair: AnaglyphPair, projection: Projection)
    ensures
        StereoLayout::of_number(layout.number()) == layout,
        AnaglyphPair::of_number(pair.number()) == pair,
        Projection::of_number(projection.number()) == projection,
{
}

/// The bit pattern of 0.25.
pub const QUARTER: u32 = 0x3e80_0000;

/// The bit pattern of 1.0.
pub const ONE: u32 = 0x3f80_0000;

/// The bit pattern of -0.0, which counts as zero.
pub const MINUS_ZERO: u32 = 0x8000_0000;

/// How much of the sphere a frame covers, as the `equi` box states it.
///
/// Each field is the proportion of the projection cropped from that edge and is not covered by the
/// video, so all zeroes is the whole sphere. Each is the bit pattern of a single-precision number.
#[derive(Clone, Copy, PartialEq, Eq, Debug, Structural)]
pub struct Bounds {
    pub top: u32,
    pub bottom: u32,
    pub left: u32,
    pub right: u32,
}

/// Whether a bit pattern is that of a number from zero up to, but not including, one. The patterns
/// of positive numbers are in the order of the numbers.
pub open spec fn is_fraction(bits: u32) -> bool {
    bits < ONE || bits == MINUS_ZERO
}

/// The single-precision number of a fraction, in steps of two to the minus 149: 23 bits of
/// mantissa below an exponent, with a leading one where the exponent is not zero.
pub open spec fn fraction_steps(bits: u32) -> int {
    if bits == MINUS_ZERO {
        0
    } else if bits < 0x80_0000 {
        bits as int
    } else {
        (0x80_0000 + bits as int % 0x80_0000) * pow2((bits as int / 0x80_0000 - 1) as nat)
    }
}

/// Whether the single-precision sum of two fractions is below one: the exact sum lies below the
/// middle between one and the number before it. A tie goes to one.
pub open spec fn sum_is_below_one(a: u32, b: u32) -> bool {
    fraction_steps(a) + fraction_steps(b) < pow2(149) - pow2(124)
}

/// How many whole parts of two to the minus 25 a fraction has.
fn whole_parts(bits: u32) -> (part: u32)
    requires
        is_fraction(bits),
    ensures
        part < 0x200_0000,
        part * pow2(124) <= fraction_steps(bits) < (part + 1) * pow2(124),
        part >= 0x100_0000 ==> fraction_steps(bits) == part * pow2(124),
        part < 0x100_0000 ==> fraction_steps(bits) <= 0xff_ffff * pow2(124),
{
    if bits == MINUS_ZERO || bits < 0x80_0000 {
        proof {
            lemma2_to64();
            lemma_pow2_strictly_increases(23, 124);
        }
        return 0;
    }
    let exponent: u32 = bits / 0x80_0000;
    let mantissa: u32 = 0x80_0000 + bits % 0x80_0000;
    let ghost p = pow2((exponent - 1) as nat) as int;
    let ghost whole = pow2(124) as int;
    proof {
        lemma2_to64();
        lemma_pow2_pos((exponent - 1) as nat);
    }
    if exponent == 126 {
        proof {
            lemma_pow2_unfold(125);
            assert(mantissa * p == (2 * mantissa) * whole) by (nonlinear_arith)
                requires
                    p == 2 * whole,
            ;
            lemma_pow2_pos(124);
            assert((2 * mantissa) * whole < (2 * mantissa + 1) * whole) by (nonlinear_arith)
                requires
                    whole > 0,
            ;
        }
        return 2 * mantissa;
    }
    let shift: u32 = 125 - exponent;
    let part: u32 = if shift >= 24 {
        0
    } else {
        mantissa >> shift
    };
    proof {
        let q = pow2(shift as nat) as int;
        lemma_pow2_adds((exponent - 1) as nat, shift as nat);
        lemma_pow2_pos(shift as nat);
        if shift >= 24 {
            if shift > 24 {
                lemma_pow2_strictly_increases(24, shift as nat);
            }
            vstd::arithmetic::div_mod::lemma_basic_div(mantissa as int, q);
        } else {
            vstd::bits::lemma_u32_shr_is_div(mantissa, shift);
        }
        assert(part == mantissa as int / q);
        vstd::arithmetic::div_mod::lemma_fundamental_div_mod(mantissa as int, q);
        let r = mantissa as int % q;
        assert(mantissa * p == part * whole + p * r && 0 <= p * r < whole && part * whole + whole == (
        part + 1) * whole) by (nonlinear_arith)
            requires
                mantissa == q * part + r,
                0 <= r < q,
                p * q == whole,
                p > 0,
        ;
        assert(mantissa * p <= 0xff_ffff * whole) by (nonlinear_arith)
            requires
                p * q == whole,
                q >= 1,
                0 < p,
                0 <= mantissa <= 0xff_ffff,
        ;
        assert(part <= mantissa) by (nonlinear_arith)
            requires
                mantissa == q * part + r,
                0 <= r,
                q >= 1,
                part >= 0,
        ;
    }
    part
}

fn below_one(a: u32, b: u32) -> (below: bool)
    requires
        is_fraction(a),
        is_fraction(b),
    ensures
        below == sum_is_below_one(a, b),
{
    let x: u32 = whole_parts(a);
    let y: u32 = whole_parts(b);
    proof {
        let whole = pow2(124) as int;
        lemma_pow2_adds(25, 124);
        lemma2_to64();
        lemma_pow2_pos(124);
        let s = fraction_steps(a) + fraction_steps(b);
        assert(x * whole + y * whole == (x + y) * whole) by (nonlinear_arith);
        if x + y < 0x1ff_ffff {
            assert((x + y + 1) * whole <= 0x1ff_ffff * whole) by (nonlinear_arith)
                requires
                    x + y < 0x1ff_ffff,
                    whole > 0,
            ;
            assert((x + 1) * whole + y * whole == (x + y + 1) * whole && x * whole + (y + 1) * whole
                == (x + y + 1) * whole) by (nonlinear_arith);
            assert(s < 0x1ff_ffff * whole);
        } else {
            assert((x + y) * whole >= 0x1ff_ffff * whole) by (nonlinear_arith)
                requires
                    x + y >= 0x1ff_ffff,
                    whole > 0,
            ;
        }
        assert(0x200_0000 * whole - whole == 0x1ff_ffff * whole);
    }
    x + y < 0x1ff_ffff
}

impl Bounds {
    /// The whole sphere.
    pub fn full() -> (b: Bounds)
        ensures
            b == (Bounds { top: 0, bottom: 0, left: 0, right: 0 }),
    {
        Bounds { top: 0, bottom: 0, left: 0, right: 0 }
    }

    /// Whether the crops leave anything to draw: each is a fraction, and what is cropped from two
    /// opposite edges stays below one.
    pub open spec fn leaves_something(self) -> bool {
        &&& is_fraction(self.top)
        &&& is_fraction(self.bottom)
        &&& is_fraction(self.left)
        &&& is_fraction(self.right)
        &&& sum_is_below_one(self.top, self.bottom)
        &&& sum_is_below_one(self.left, self.right)
    }

    /// Whether the crops leave anything to draw.
    pub fn is_usable(self) -> (b: bool)
        ensures
            b == self.leaves_something(),
    {
        fraction(self.top) && fraction(self.bottom) && fraction(self.left) && fraction(self.right)
            && below_one(self.top, self.bottom) && below_one(self.left, self.right)
    }

    /// Whether the covered patch reaches the pole overhead.
    pub open spec fn reaches_zenith(self) -> bool {
        self.top == 0 || self.top == MINUS_ZERO
    }

    /// Whether the covered patch reaches the pole underfoot.
    pub open spec fn reaches_nadir(self) -> bool {
        self.bottom == 0 || self.bottom == MINUS_ZERO
    }
}

fn fraction(bits: u32) -> (b: bool)
    ensures
        b == is_fraction(bits),
{
    bits < ONE || bits == MINUS_ZERO
}

/// The named projections leave something to draw.
pub proof fn named_projections_are_usable(projection: Projection)
    ensures
        projection.crops() matches Some(bounds) ==> bounds.leaves_something()
            && bounds.reaches_zenith() && bounds.reaches_nadir(),
{
    lemma2_to64();
    lemma_pow2_adds(25, 124);
    lemma_pow2_adds(1, 123);
    lemma_pow2_pos(124);
    lemma_pow2_adds(23, 124);
    assert(0x3e80_0000int / 0x80_0000 == 125 && 0x3e80_0000int % 0x80_0000 == 0);
}

/// Floats per vertex: three of position, two of texture coordinate.
pub const VERTEX_FLOATS: usize = 5;

/// Beyond this a 16-bit index buffer cannot address the mesh.
pub const MAX_VERTICES: usize = 65_536;

/// Number of vertices of a sphere: both grid dimensions get one extra line, which closes the sphere
/// at the south pole and duplicates the first longitude at the far edge of the texture.
pub open spec fn sphere_vertices(rings: int, sectors: int) -> int {
    (rings + 1) * (sectors + 1)
}

/// Number of vertices of a sphere at this tessellation.
pub fn vertex_count(rings: u32, sectors: u32) -> (n: usize)
    requires
        sphere_vertices(rings as int, sectors as int) <= usize::MAX,
    ensures
        n == sphere_vertices(rings as int, sectors as int),
{
    proof {
        let r = rings as int + 1;
        let s = sectors as int + 1;
        assert(r <= r * s && s <= r * s) by (nonlinear_arith)
            requires
                r >= 1,
                s >= 1,
        ;
    }
    (rings as usize + 1) * (sectors as usize + 1)
}

/// How many indices to make room for: two triangles per grid cell everywhere.
pub open spec fn index_room(rings: int, sectors: int) -> int {
    if rings < 2 {
        0
    } else {
        6 * (rings * sectors)
    }
}

/// How many indices to make room for at this tessellation.
///
/// An upper bound, not an exact count: where the mesh reaches a pole, one of the two triangles of a
/// cell has no area and is skipped. Draw with the count [`sphere_indices`] returns.
pub fn index_count(rings: u32, sectors: u32) -> (n: usize)
    requires
        index_room(rings as int, sectors as int) <= usize::MAX,
    ensures
        n == index_room(rings as int, sectors as int),
{
    if rings < 2 {
        return 0;
    }
    let cells: usize = rings as usize * sectors as usize;
    6 * cells
}

/// Whether a sphere of this tessellation is a closed surface that 16-bit indices can address.
pub open spec fn is_tessellation(rings: int, sectors: int) -> bool {
    rings >= 2 && sectors >= 3 && sphere_vertices(rings, sectors) <= MAX_VERTICES
}

fn tessellation(rings: u32, sectors: u32) -> (b: bool)
    ensures
        b == is_tessellation(rings as int, sectors as int),
{
    if rings < 2 || sectors < 3 {
        return false;
    }
    let ghost r = rings as int + 1;
    let ghost s = sectors as int + 1;
    assert(r <= r * s && s <= r * s) by (nonlinear_arith)
        requires
            r >= 1,
            s >= 1,
    ;
    if rings > 0xffff || sectors > 0xffff {
        return false;
    }
    assert(r * s <= 0x1_0000 * 0x1_0000) by (nonlinear_arith)
        requires
            1 <= r <= 0x1_0000,
            1 <= s <= 0x1_0000,
    ;
    (rings as u64 + 1) * (sectors as u64 + 1) <= 65_536
}

/// The indices of one grid cell.
///
/// ```text
/// a --- b   ring
/// |     |
/// c --- d   ring + 1
/// ```
pub open spec fn cell_indices(a: int, stride: int, upper: bool, lower: bool) -> Seq<u16> {
    let b = (a + 1) as u16;
    let c = (a + stride) as u16;
    let d = (a + stride + 1) as u16;
    (if upper {
        seq![a as u16, d, b]
    } else {
        Seq::empty()
    }) + (if lower {
        seq![a as u16, c, d]
    } else {
        Seq::empty()
    })
}

/// The number of the vertex at a crossing of the grid.
pub open spec fn grid_vertex(ring: int, sector: int, sectors: int) -> int {
    ring * (sectors + 1) + sector
}

/// The indices of a cell of the sphere. At a pole that the mesh reaches, one corner of the cell
/// collapses, and the triangle without area is left out.
pub open spec fn sphere_cell(
    ring: int,
    sector: int,
    rings: int,
    sectors: int,
    zenith: bool,
    nadir: bool,
) -> Seq<u16> {
    cell_indices(
        grid_vertex(ring, sector, sectors),
        sectors + 1,
        ring > 0 || !zenith,
        ring + 1 < rings || !nadir,
    )
}

/// The indices of all cells before the one at `ring` and `sector`, row by row.
pub open spec fn sphere_upto(
    ring: int,
    sector: int,
    rings: int,
    sectors: int,
    zenith: bool,
    nadir: bool,
) -> Seq<u16>
    decreases ring, sector,
{
    if sector > 0 {
        sphere_upto(ring, sector - 1, rings, sectors, zenith, nadir) + sphere_cell(
            ring,
            sector - 1,
            rings,
            sectors,
            zenith,
            nadir,
        )
    } else if ring > 0 {
        sphere_upto(ring - 1, sectors, rings, sectors, zenith, nadir)
    } else {
        Seq::empty()
    }
}

/// The triangles of a sphere, three indices each.
pub open spec fn sphere_triangles(rings: int, sectors: int, zenith: bool, nadir: bool) -> Seq<u16> {
    sphere_upto(rings, 0, rings, sectors, zenith, nadir)
}

/// How many indices a sphere has: two triangles per cell, less one per cell of a row at a pole.
pub open spec fn sphere_index_total(rings: int, sectors: int, zenith: bool, nadir: bool) -> int {
    index_room(rings, sectors) - 3 * (sectors * ((if zenith {
        1int
    } else {
        0int
    }) + (if nadir {
        1int
    } else {
        0int
    })))
}

spec fn lengths_upto(ring: int, sector: int, rings: int, sectors: int, zenith: bool, nadir: bool) -> int {
    let cells = ring * sectors + sector;
    6 * cells - (if zenith {
        3 * (if ring > 0 {
            sectors
        } else {
            sector
        })
    } else {
        0
    }) - (if nadir {
        3 * (if ring >= rings {
            sectors
        } else if ring == rings - 1 {
            sector
        } else {
            0
        })
    } else {
        0
    })
}

proof fn sphere_lengths(
    ring: int,
    sector: int,
    rings: int,
    sectors: int,
    zenith: bool,
    nadir: bool,
)
    requires
        2 <= rings,
        0 <= ring <= rings,
        0 <= sector <= sectors,
        ring == rings ==> sector == 0,
        3 <= sectors,
    ensures
        sphere_upto(ring, sector, rings, sectors, zenith, nadir).len() == lengths_upto(
            ring,
            sector,
            rings,
            sectors,
            zenith,
            nadir,
        ),
    decreases ring, sector,
{
    if sector > 0 {
        sphere_lengths(ring, sector - 1, rings, sectors, zenith, nadir);
    } else if ring > 0 {
        sphere_lengths(ring - 1, sectors, rings, sectors, zenith, nadir);
        assert((ring - 1) * sectors + sectors == ring * sectors) by (nonlinear_arith);
    } else {
        assert(ring * sectors == 0) by (nonlinear_arith)
            requires
                ring == 0,
        ;
    }
}

proof fn grid_vertex_fits(ring: int, sector: int, rings: int, sectors: int)
    requires
        is_tessellation(rings, sectors),
        0 <= ring < rings,
        0 <= sector < sectors,
    ensures
        0 <= grid_vertex(ring, sector, sectors),
        grid_vertex(ring, sector, sectors) + sectors + 2 < sphere_vertices(rings, sectors),
        grid_vertex(ring, sector, sectors) + sectors + 2 <= 0xffff,
{
    assert(0 <= ring * (sectors + 1) && ring * (sectors + 1) + (sectors + 1) <= rings * (sectors + 1)
        && (rings + 1) * (sectors + 1) == rings * (sectors + 1) + (sectors + 1)) by (nonlinear_arith)
        requires
            0 <= ring < rings,
            0 <= sectors,
    ;
}

/// Writes the triangle indices of a full sphere.
///
/// Returns the number of indices written, or `None` where the tessellation is unusable: fewer than
/// two rings or three sectors makes no closed surface, and more than 65 536 vertices cannot be
/// indexed. A short output slice is refused too, and nothing is written then.
pub fn sphere_indices(rings: u32, sectors: u32, out: &mut [u16]) -> (r: Option<usize>)
    ensures
        final(out)@.len() == old(out)@.len(),
        ({
            let total = sphere_index_total(rings as int, sectors as int, true, true);
            match r {
                Some(n) => {
                    &&& is_tessellation(rings as int, sectors as int)
                    &&& n == total
                    &&& n <= old(out)@.len()
                    &&& final(out)@ == sphere_triangles(rings as int, sectors as int, true, true)
                        + old(out)@.skip(n as int)
                },
                None => {
                    &&& !is_tessellation(rings as int, sectors as int) || old(out)@.len() < total
                    &&& final(out)@ == old(out)@
                },
            }
        }),
{
    let bounds = Bounds::full();
    proof {
        named_projections_are_usable(Projection::Equirect360);
    }
    sphere_indices_bounded(rings, sectors, bounds, out)
}

/// The same, for a mesh over a patch of the sphere.
///
/// The top and bottom rows of a full sphere collapse onto the poles, so half of each of those cells
/// is a triangle with no area and is dropped. Crop the sphere and those rows are ordinary quads
/// that need both triangles.
#[verifier::spinoff_prover]
#[verifier::rlimit(50)]
pub fn sphere_indices_bounded(rings: u32, sectors: u32, bounds: Bounds, out: &mut [u16]) -> (r:
    Option<usize>)
    ensures
        final(out)@.len() == old(out)@.len(),
        ({
            let zenith = bounds.reaches_zenith();
            let nadir = bounds.reaches_nadir();
            let total = sphere_index_total(rings as int, sectors as int, zenith, nadir);
            match r {
                Some(n) => {
                    &&& is_tessellation(rings as int, sectors as int)
                    &&& bounds.leaves_something()
                    &&& n == total
                    &&& n <= old(out)@.len()
                    &&& final(out)@ == sphere_triangles(
                        rings as int,
                        sectors as int,
                        zenith,
                        nadir,
                    ) + old(out)@.skip(n as int)
                },
                None => {
                    &&& !is_tessellation(rings as int, sectors as int)
                        || !bounds.leaves_something() || old(out)@.len() < total
                    &&& final(out)@ == old(out)@
                },
            }
        }),
{
    if !tessellation(rings, sectors) {
        return None;
    }
    if !bounds.is_usable() {
        return None;
    }
    // Only an uncropped edge actually reaches a pole.
    let zenith: bool = bounds.top == 0 || bounds.top == MINUS_ZERO;
    let nadir: bool = bounds.bottom == 0 || bounds.bottom == MINUS_ZERO;
    let ghost r = rings as int;
    let ghost s = sectors as int;
    proof {
        assert(r * s <= (r + 1) * (s + 1) && 2 * s <= r * s && 0 <= r && 0 <= s) by (nonlinear_arith)
            requires
                r >= 2,
                s >= 3,
        ;
        assert(s * 1 == s && s * 2 == 2 * s && s * 0 == 0);
        sphere_lengths(r, 0, r, s, zenith, nadir);
    }
    let poles: usize = (if zenith {
        1
    } else {
        0
    }) + (if nadir {
        1
    } else {
        0
    });
    let count: usize = index_count(rings, sectors) - 3 * (sectors as usize * poles);
    if out.len() < count {
        return None;
    }
    let ghost before = out@;
    let stride: u32 = sectors + 1;
    let mut w: usize = 0;
    let mut ring: u32 = 0;
    assert(out@.take(0) =~= Seq::<u16>::empty());
    while ring < rings
        invariant
            r == rings,
            s == sectors,
            is_tessellation(r, s),
            stride == sectors + 1,
            ring <= rings,
            out@.len() == before.len(),
            count <= out@.len(),
            count == sphere_triangles(r, s, zenith, nadir).len(),
            w == sphere_upto(ring as int, 0, r, s, zenith, nadir).len(),
            w <= count,
            out@.take(w as int) == sphere_upto(ring as int, 0, r, s, zenith, nadir),
            out@.skip(count as int) == before.skip(count as int),
        decreases rings - ring,
    {
        let mut sector: u32 = 0;
        while sector < sectors
            invariant
                r == rings,
                s == sectors,
                is_tessellation(r, s),
                stride == sectors + 1,
                ring < rings,
                sector <= sectors,
                out@.len() == before.len(),
                count <= out@.len(),
                count == sphere_triangles(r, s, zenith, nadir).len(),
                w == sphere_upto(ring as int, sector as int, r, s, zenith, nadir).len(),
                out@.take(w as int) == sphere_upto(ring as int, sector as int, r, s, zenith, nadir),
                out@.skip(count as int) == before.skip(count as int),
            decreases sectors - sector,
        {
            let ghost done = sphere_upto(ring as int, sector as int, r, s, zenith, nadir);
            let ghost cell = sphere_cell(ring as int, sector as int, r, s, zenith, nadir);
            let ghost prior = out@;
            proof {
                grid_vertex_fits(ring as int, sector as int, r, s);
                sphere_lengths(ring as int, sector + 1, r, s, zenith, nadir);
                sphere_lengths(r, 0, r, s, zenith, nadir);
                assert(sphere_upto(ring as int, sector + 1, r, s, zenith, nadir) =~= done + cell);
                row_lengths_fit(ring as int, sector + 1, r, s, zenith, nadir);
                assert(0 <= ring * stride <= 0xffff);
            }
            let a: u16 = (ring * stride + sector) as u16;
            let b: u16 = a + 1;
            let c: u16 = a + stride as u16;
            let d: u16 = c + 1;
            if ring > 0 || !zenith {
                out[w] = a;
                out[w + 1] = d;
                out[w + 2] = b;
                w += 3;
            }
            if ring + 1 < rings || !nadir {
                out[w] = a;
                out[w + 1] = c;
                out[w + 2] = d;
                w += 3;
            }
            proof {
                assert(out@.take(w as int) =~= done + cell) by {
                    assert forall|k: int| 0 <= k < done.len() implies out@[k] == done[k] by {
                        assert(prior.take(done.len() as int)[k] == prior[k]);
                    }
                }
                assert(out@.skip(count as int) =~= prior.skip(count as int));
            }
            sector += 1;
        }
        ring += 1;
        proof {
            sphere_lengths(ring as int, 0, r, s, zenith, nadir);
            row_lengths_fit(ring as int, 0, r, s, zenith, nadir);
            assert(sphere_upto(ring as int, 0, r, s, zenith, nadir) == sphere_upto(
                ring - 1,
                s,
                r,
                s,
                zenith,
                nadir,
            ));
        }
    }
    assert(out@ =~= sphere_triangles(r, s, zenith, nadir) + before.skip(count as int)) by {
        assert forall|k: int| count <= k < out@.len() implies out@[k] == before[k] by {
            assert(out@.skip(count as int)[k - count] == out@[k]);
            assert(before.skip(count as int)[k - count] == before[k]);
        }
        assert forall|k: int| 0 <= k < count implies out@[k] == sphere_triangles(
            r,
            s,
            zenith,
            nadir,
        )[k] by {
            assert(out@.take(count as int)[k] == out@[k]);
        }
    }
    Some(count)
}

/// A part of the rows is no longer than all of them.
proof fn row_lengths_fit(
    ring: int,
    sector: int,
    rings: int,
    sectors: int,
    zenith: bool,
    nadir: bool,
)
    requires
        2 <= rings,
        3 <= sectors,
        0 <= ring <= rings,
        0 <= sector <= sectors,
        ring == rings ==> sector == 0,
    ensures
        sphere_upto(ring, sector, rings, sectors, zenith, nadir).len() <= sphere_triangles(
            rings,
            sectors,
            zenith,
            nadir,
        ).len(),
{
    sphere_lengths(ring, sector, rings, sectors, zenith, nadir);
    sphere_lengths(rings, 0, rings, sectors, zenith, nadir);
    if ring < rings {
        assert(ring * sectors + sectors <= rings * sectors) by (nonlinear_arith)
            requires
                ring + 1 <= rings,
                0 <= sectors,
        ;
        if ring < rings - 1 {
            assert(ring * sectors + 2 * sectors <= rings * sectors) by (nonlinear_arith)
                requires
                    ring + 2 <= rings,
                    0 <= sectors,
            ;
        }
        if ring == 0 {
            assert(ring * sectors == 0) by (nonlinear_arith)
                requires
                    ring == 0,
            ;
        }
    }
}

/// Whether three vertices are one of the two halves of a cell of the sphere, wound counter-clockwise
/// seen from the centre: down the far side and back, or down the near side and across.
pub open spec fn is_half_cell(x: int, y: int, z: int, rings: int, sectors: int) -> bool {
    exists|ring: int, sector: int|
        0 <= ring < rings && 0 <= sector < sectors && #[trigger] is_half_of(
            x,
            y,
            z,
            ring,
            sector,
            sectors,
        )
}

/// Whether three vertices are a half of this cell.
pub open spec fn is_half_of(
    x: int,
    y: int,
    z: int,
    ring: int,
    sector: int,
    sectors: int,
) -> bool {
    let a = grid_vertex(ring, sector, sectors);
    let b = grid_vertex(ring, sector + 1, sectors);
    let c = grid_vertex(ring + 1, sector, sectors);
    let d = grid_vertex(ring + 1, sector + 1, sectors);
    x == a && ((y == d && z == b) || (y == c && z == d))
}

proof fn halves_upto(
    ring: int,
    sector: int,
    rings: int,
    sectors: int,
    zenith: bool,
    nadir: bool,
    t: int,
)
    requires
        is_tessellation(rings, sectors),
        0 <= ring <= rings,
        0 <= sector <= sectors,
        ring == rings ==> sector == 0,
        0 <= 3 * t < sphere_upto(ring, sector, rings, sectors, zenith, nadir).len(),
    ensures
        ({
            let tri = sphere_upto(ring, sector, rings, sectors, zenith, nadir);
            &&& 3 * t + 2 < tri.len()
            &&& is_half_cell(
                tri[3 * t] as int,
                tri[3 * t + 1] as int,
                tri[3 * t + 2] as int,
                rings,
                sectors,
            )
        }),
    decreases ring, sector,
{
    if sector > 0 {
        let before = sphere_upto(ring, sector - 1, rings, sectors, zenith, nadir);
        let cell = sphere_cell(ring, sector - 1, rings, sectors, zenith, nadir);
        let tri = sphere_upto(ring, sector, rings, sectors, zenith, nadir);
        sphere_lengths(ring, sector - 1, rings, sectors, zenith, nadir);
        if 3 * t < before.len() {
            halves_upto(ring, sector - 1, rings, sectors, zenith, nadir, t);
        } else {
            grid_vertex_fits(ring, sector - 1, rings, sectors);
            assert((ring + 1) * (sectors + 1) == ring * (sectors + 1) + (sectors + 1))
                by (nonlinear_arith);
            let x = tri[3 * t] as int;
            let y = tri[3 * t + 1] as int;
            let z = tri[3 * t + 2] as int;
            assert(is_half_of(x, y, z, ring, sector - 1, sectors));
        }
    } else {
        halves_upto(ring - 1, sectors, rings, sectors, zenith, nadir, t);
    }
}

/// Every triangle of a sphere is half a cell of its grid, and all are wound the same way, so that
/// none faces away from the viewer at the centre.
pub proof fn every_triangle_is_half_a_cell(
    rings: int,
    sectors: int,
    zenith: bool,
    nadir: bool,
    t: int,
)
    requires
        is_tessellation(rings, sectors),
        0 <= 3 * t < sphere_triangles(rings, sectors, zenith, nadir).len(),
    ensures
        ({
            let tri = sphere_triangles(rings, sectors, zenith, nadir);
            &&& 3 * t + 2 < tri.len()
            &&& is_half_cell(
                tri[3 * t] as int,
                tri[3 * t + 1] as int,
                tri[3 * t + 2] as int,
                rings,
                sectors,
            )
        }),
{
    halves_upto(rings, 0, rings, sectors, zenith, nadir, t);
}

/// The indices of a sphere stay in the range of its vertices.
pub proof fn sphere_indices_stay_in_range(
    rings: int,
    sectors: int,
    zenith: bool,
    nadir: bool,
    k: int,
)
    requires
        is_tessellation(rings, sectors),
        0 <= k < sphere_triangles(rings, sectors, zenith, nadir).len(),
    ensures
        sphere_triangles(rings, sectors, zenith, nadir)[k] < sphere_vertices(rings, sectors),
{
    let tri = sphere_triangles(rings, sectors, zenith, nadir);
    let t = k / 3;
    every_triangle_is_half_a_cell(rings, sectors, zenith, nadir, t);
    let (ring, sector) = choose|ring: int, sector: int|
        0 <= ring < rings && 0 <= sector < sectors && #[trigger] is_half_of(
            tri[3 * t] as int,
            tri[3 * t + 1] as int,
            tri[3 * t + 2] as int,
            ring,
            sector,
            sectors,
        );
    grid_vertex_fits(ring, sector, rings, sectors);
    assert((ring + 1) * (sectors + 1) == ring * (sectors + 1) + (sectors + 1)) by (nonlinear_arith);
    assert(k == 3 * t || k == 3 * t + 1 || k == 3 * t + 2);
}

/// Whether a vertex lies on a ring, counted from the top.
pub open spec fn lies_on(v: int, ring: int, sectors: int) -> bool {
    ring * (sectors + 1) <= v < (ring + 1) * (sectors + 1)
}

/// Whether at least two of three vertices lie on a ring.
pub open spec fn two_lie_on(x: int, y: int, z: int, ring: int, sectors: int) -> bool {
    ||| lies_on(x, ring, sectors) && lies_on(y, ring, sectors)
    ||| lies_on(y, ring, sectors) && lies_on(z, ring, sectors)
    ||| lies_on(x, ring, sectors) && lies_on(z, ring, sectors)
}

/// Whether three vertices have no area: two of them are one and the same pole.
pub open spec fn is_flat(
    x: int,
    y: int,
    z: int,
    rings: int,
    sectors: int,
    zenith: bool,
    nadir: bool,
) -> bool {
    ||| zenith && two_lie_on(x, y, z, 0, sectors)
    ||| nadir && two_lie_on(x, y, z, rings, sectors)
}

proof fn rings_of_a_cell(ring: int, sector: int, rings: int, sectors: int, k: int)
    requires
        0 <= ring < rings,
        0 <= sector < sectors,
        0 <= k <= rings,
    ensures
        ({
            let a = grid_vertex(ring, sector, sectors);
            let b = grid_vertex(ring, sector + 1, sectors);
            let c = grid_vertex(ring + 1, sector, sectors);
            let d = grid_vertex(ring + 1, sector + 1, sectors);
            &&& lies_on(a, k, sectors) <==> k == ring
            &&& lies_on(b, k, sectors) <==> k == ring
            &&& lies_on(c, k, sectors) <==> k == ring + 1
            &&& lies_on(d, k, sectors) <==> k == ring + 1
            &&& b == a + 1 && c == a + sectors + 1 && d == a + sectors + 2
        }),
{
    let s = sectors + 1;
    assert((ring + 1) * s == ring * s + s && (ring + 2) * s == ring * s + 2 * s && (k + 1) * s == k * s
        + s) by (nonlinear_arith);
    if k < ring {
        assert((k + 1) * s <= ring * s) by (nonlinear_arith)
            requires
                k + 1 <= ring,
                s > 0,
        ;
    } else if k == ring + 1 {
    } else if k > ring + 1 {
        assert(k * s >= (ring + 2) * s) by (nonlinear_arith)
            requires
                k >= ring + 2,
                s > 0,
        ;
    }
}

proof fn triangles_upto(
    ring: int,
    sector: int,
    rings: int,
    sectors: int,
    zenith: bool,
    nadir: bool,
    t: int,
)
    requires
        is_tessellation(rings, sectors),
        0 <= ring <= rings,
        0 <= sector <= sectors,
        ring == rings ==> sector == 0,
        0 <= 3 * t < sphere_upto(ring, sector, rings, sectors, zenith, nadir).len(),
    ensures
        ({
            let tri = sphere_upto(ring, sector, rings, sectors, zenith, nadir);
            &&& 3 * t + 2 < tri.len()
            &&& tri[3 * t] < grid_vertex(ring, sector, sectors)
            &&& !is_flat(
                tri[3 * t] as int,
                tri[3 * t + 1] as int,
                tri[3 * t + 2] as int,
                rings,
                sectors,
                zenith,
                nadir,
            )
        }),
    decreases ring, sector,
{
    if sector > 0 {
        let before = sphere_upto(ring, sector - 1, rings, sectors, zenith, nadir);
        sphere_lengths(ring, sector - 1, rings, sectors, zenith, nadir);
        if 3 * t < before.len() {
            triangles_upto(ring, sector - 1, rings, sectors, zenith, nadir, t);
        } else {
            grid_vertex_fits(ring, sector - 1, rings, sectors);
            rings_of_a_cell(ring, sector - 1, rings, sectors, 0);
            rings_of_a_cell(ring, sector - 1, rings, sectors, rings);
        }
    } else {
        triangles_upto(ring - 1, sectors, rings, sectors, zenith, nadir, t);
        assert((ring - 1) * (sectors + 1) + sectors < ring * (sectors + 1)) by (nonlinear_arith)
            requires
                0 <= sectors,
        ;
    }
}

/// No triangle of a sphere is without area: where the mesh reaches a pole, the ring there is a single
/// point, and no triangle has two of its corners on it.
pub proof fn no_triangle_is_without_area(
    rings: int,
    sectors: int,
    zenith: bool,
    nadir: bool,
    t: int,
)
    requires
        is_tessellation(rings, sectors),
        0 <= 3 * t < sphere_triangles(rings, sectors, zenith, nadir).len(),
    ensures
        ({
            let tri = sphere_triangles(rings, sectors, zenith, nadir);
            let (x, y, z) = (tri[3 * t] as int, tri[3 * t + 1] as int, tri[3 * t + 2] as int);
            &&& 3 * t + 2 < tri.len()
            &&& x != y && y != z && x != z
            &&& zenith ==> !two_lie_on(x, y, z, 0, sectors)
            &&& nadir ==> !two_lie_on(x, y, z, rings, sectors)
        }),
{
    triangles_upto(rings, 0, rings, sectors, zenith, nadir, t);
    every_triangle_is_half_a_cell(rings, sectors, zenith, nadir, t);
    let tri = sphere_triangles(rings, sectors, zenith, nadir);
    let (ring, sector) = choose|ring: int, sector: int|
        0 <= ring < rings && 0 <= sector < sectors && #[trigger] is_half_of(
            tri[3 * t] as int,
            tri[3 * t + 1] as int,
            tri[3 * t + 2] as int,
            ring,
            sector,
            sectors,
        );
    rings_of_a_cell(ring, sector, rings, sectors, 0);
}

/// Whether three vertices, in this order, are a triangle of an index buffer.
pub open spec fn is_drawn(tri: Seq<u16>, x: int, y: int, z: int) -> bool {
    exists|t: int|
        0 <= 3 * t && 3 * t + 2 < tri.len() && #[trigger] tri[3 * t] == x && tri[3 * t + 1] == y
            && tri[3 * t + 2] == z
}

proof fn drawn_upto(
    ring: int,
    sector: int,
    rings: int,
    sectors: int,
    zenith: bool,
    nadir: bool,
    r: int,
    s: int,
    x: int,
    y: int,
    z: int,
)
    requires
        is_tessellation(rings, sectors),
        0 <= ring <= rings,
        0 <= sector <= sectors,
        ring == rings ==> sector == 0,
        0 <= r < rings,
        0 <= s < sectors,
        r < ring || (r == ring && s < sector),
        is_half_of(x, y, z, r, s, sectors),
        !is_flat(x, y, z, rings, sectors, zenith, nadir),
    ensures
        is_drawn(sphere_upto(ring, sector, rings, sectors, zenith, nadir), x, y, z),
    decreases ring, sector,
{
    let tri = sphere_upto(ring, sector, rings, sectors, zenith, nadir);
    if sector > 0 {
        let before = sphere_upto(ring, sector - 1, rings, sectors, zenith, nadir);
        let cell = sphere_cell(ring, sector - 1, rings, sectors, zenith, nadir);
        sphere_lengths(ring, sector - 1, rings, sectors, zenith, nadir);
        if r == ring && s == sector - 1 {
            grid_vertex_fits(r, s, rings, sectors);
            rings_of_a_cell(r, s, rings, sectors, 0);
            rings_of_a_cell(r, s, rings, sectors, rings);
            let n = before.len() as int;
            three_at_a_time(ring, sector - 1, rings, sectors, zenith, nadir);
            let t = n / 3;
            if z == grid_vertex(r, s + 1, sectors) {
                assert(cell[0] == x && cell[1] == y && cell[2] == z);
                assert(tri[3 * t] == x && tri[3 * t + 1] == y && tri[3 * t + 2] == z);
            } else if r > 0 || !zenith {
                assert(cell[3] == x && cell[4] == y && cell[5] == z);
                assert(tri[3 * (t + 1)] == x && tri[3 * (t + 1) + 1] == y && tri[3 * (t + 1) + 2]
                    == z);
            } else {
                assert(cell[0] == x && cell[1] == y && cell[2] == z);
                assert(tri[3 * t] == x && tri[3 * t + 1] == y && tri[3 * t + 2] == z);
            }
        } else {
            drawn_upto(ring, sector - 1, rings, sectors, zenith, nadir, r, s, x, y, z);
            let t = choose|t: int|
                0 <= 3 * t && 3 * t + 2 < before.len() && #[trigger] before[3 * t] == x && before[3 * t
                    + 1] == y && before[3 * t + 2] == z;
            assert(tri[3 * t] == x && tri[3 * t + 1] == y && tri[3 * t + 2] == z);
        }
    } else {
        drawn_upto(ring - 1, sectors, rings, sectors, zenith, nadir, r, s, x, y, z);
    }
}

proof fn three_at_a_time(
    ring: int,
    sector: int,
    rings: int,
    sectors: int,
    zenith: bool,
    nadir: bool,
)
    ensures
        sphere_upto(ring, sector, rings, sectors, zenith, nadir).len() % 3 == 0,
    decreases ring, sector,
{
    if sector > 0 {
        three_at_a_time(ring, sector - 1, rings, sectors, zenith, nadir);
    } else if ring > 0 {
        three_at_a_time(ring - 1, sectors, rings, sectors, zenith, nadir);
    }
}

/// The sphere has no hole: every half of every cell is drawn, but for the ones that a pole leaves
/// without area.
pub proof fn every_half_with_an_area_is_drawn(
    rings: int,
    sectors: int,
    zenith: bool,
    nadir: bool,
    ring: int,
    sector: int,
)
    requires
        is_tessellation(rings, sectors),
        0 <= ring < rings,
        0 <= sector < sectors,
    ensures
        ({
            let tri = sphere_triangles(rings, sectors, zenith, nadir);
            let near = ring * (sectors + 1) + sector;
            let below = near + sectors + 1;
            &&& !(zenith && ring == 0) ==> is_drawn(tri, near, below + 1, near + 1)
            &&& !(nadir && ring == rings - 1) ==> is_drawn(tri, near, below, below + 1)
        }),
{
    let a = grid_vertex(ring, sector, sectors);
    let b = grid_vertex(ring, sector + 1, sectors);
    let c = grid_vertex(ring + 1, sector, sectors);
    let d = grid_vertex(ring + 1, sector + 1, sectors);
    rings_of_a_cell(ring, sector, rings, sectors, 0);
    rings_of_a_cell(ring, sector, rings, sectors, rings);
    if !(zenith && ring == 0) {
        drawn_upto(rings, 0, rings, sectors, zenith, nadir, ring, sector, a, d, b);
    }
    if !(nadir && ring == rings - 1) {
        drawn_upto(rings, 0, rings, sectors, zenith, nadir, ring, sector, a, c, d);
    }
}

/// A crop at the top opens the pole overhead, and only that one: the row there is drawn whole exactly
/// where something is cropped above it. The same holds at the bottom.
pub proof fn a_crop_opens_its_own_pole(rings: int, sectors: int, bounds: Bounds, sector: int)
    requires
        is_tessellation(rings, sectors),
        bounds.leaves_something(),
        0 <= sector < sectors,
    ensures
        ({
            let tri = sphere_triangles(
                rings,
                sectors,
                bounds.reaches_zenith(),
                bounds.reaches_nadir(),
            );
            let under = (rings - 1) * (sectors + 1) + sector;
            let last = under + sectors + 1;
            &&& is_drawn(tri, sector, sector + sectors + 2, sector + 1) <==> fraction_steps(bounds.top)
                > 0
            &&& is_drawn(tri, under, last, last + 1) <==> fraction_steps(bounds.bottom) > 0
        }),
{
    let (zenith, nadir) = (bounds.reaches_zenith(), bounds.reaches_nadir());
    let tri = sphere_triangles(rings, sectors, zenith, nadir);
    steps_are_zero_only_at_zero(bounds.top);
    steps_are_zero_only_at_zero(bounds.bottom);
    every_half_with_an_area_is_drawn(rings, sectors, zenith, nadir, 0, sector);
    every_half_with_an_area_is_drawn(rings, sectors, zenith, nadir, rings - 1, sector);
    rings_of_a_cell(0, sector, rings, sectors, 0);
    rings_of_a_cell(rings - 1, sector, rings, sectors, rings);
    let under = (rings - 1) * (sectors + 1) + sector;
    let last = under + sectors + 1;
    assert(0 * (sectors + 1) == 0) by (nonlinear_arith);
    if zenith && is_drawn(tri, sector, sector + sectors + 2, sector + 1) {
        let t = choose|t: int|
            0 <= 3 * t && 3 * t + 2 < tri.len() && #[trigger] tri[3 * t] == sector && tri[3 * t + 1]
                == sector + sectors + 2 && tri[3 * t + 2] == sector + 1;
        no_triangle_is_without_area(rings, sectors, zenith, nadir, t);
    }
    if nadir && is_drawn(tri, under, last, last + 1) {
        let t = choose|t: int|
            0 <= 3 * t && 3 * t + 2 < tri.len() && #[trigger] tri[3 * t] == under && tri[3 * t + 1]
                == last && tri[3 * t + 2] == last + 1;
        no_triangle_is_without_area(rings, sectors, zenith, nadir, t);
    }
}

proof fn steps_are_zero_only_at_zero(bits: u32)
    requires
        is_fraction(bits),
    ensures
        fraction_steps(bits) >= 0,
        fraction_steps(bits) == 0 <==> bits == 0 || bits == MINUS_ZERO,
{
    if bits != MINUS_ZERO && bits >= 0x80_0000 {
        let p = pow2((bits as int / 0x80_0000 - 1) as nat) as int;
        lemma_pow2_pos((bits as int / 0x80_0000 - 1) as nat);
        assert((0x80_0000 + bits as int % 0x80_0000) * p > 0) by (nonlinear_arith)
            requires
                p > 0,
                0x80_0000 + bits as int % 0x80_0000 > 0,
        ;
    }
}

proof fn distinct_upto(
    ring: int,
    sector: int,
    rings: int,
    sectors: int,
    zenith: bool,
    nadir: bool,
    t: int,
    u: int,
)
    requires
        is_tessellation(rings, sectors),
        0 <= ring <= rings,
        0 <= sector <= sectors,
        ring == rings ==> sector == 0,
        0 <= t < u,
        3 * u < sphere_upto(ring, sector, rings, sectors, zenith, nadir).len(),
    ensures
        ({
            let tri = sphere_upto(ring, sector, rings, sectors, zenith, nadir);
            tri[3 * t] < tri[3 * u] || (tri[3 * t] == tri[3 * u] && tri[3 * t + 1] != tri[3 * u + 1])
        }),
    decreases ring, sector,
{
    if sector > 0 {
        let before = sphere_upto(ring, sector - 1, rings, sectors, zenith, nadir);
        sphere_lengths(ring, sector - 1, rings, sectors, zenith, nadir);
        three_at_a_time(ring, sector - 1, rings, sectors, zenith, nadir);
        if 3 * u < before.len() {
            distinct_upto(ring, sector - 1, rings, sectors, zenith, nadir, t, u);
        } else {
            grid_vertex_fits(ring, sector - 1, rings, sectors);
            if 3 * t < before.len() {
                triangles_upto(ring, sector - 1, rings, sectors, zenith, nadir, t);
            }
        }
    } else {
        distinct_upto(ring - 1, sectors, rings, sectors, zenith, nadir, t, u);
    }
}

/// No triangle of a sphere is drawn twice, whichever of its corners it starts with.
pub proof fn no_triangle_is_drawn_twice(
    rings: int,
    sectors: int,
    zenith: bool,
    nadir: bool,
    t: int,
    u: int,
)
    requires
        is_tessellation(rings, sectors),
        0 <= t < u,
        3 * u < sphere_triangles(rings, sectors, zenith, nadir).len(),
    ensures
        ({
            let tri = sphere_triangles(rings, sectors, zenith, nadir);
            tri[3 * t] != tri[3 * u] || tri[3 * t + 1] != tri[3 * u + 1]
        }),
{
    distinct_upto(rings, 0, rings, sectors, zenith, nadir, t, u);
}

/// A sphere has as many indices as was announced, and a cropped one keeps the triangles that a
/// full one drops at its poles: one per sector and pole.
pub proof fn the_announced_indices_are_there(
    rings: int,
    sectors: int,
    zenith: bool,
    nadir: bool,
)
    requires
        is_tessellation(rings, sectors),
    ensures
        sphere_triangles(rings, sectors, zenith, nadir).len() == sphere_index_total(
            rings,
            sectors,
            zenith,
            nadir,
        ),
        sphere_index_total(rings, sectors, false, false) == index_room(rings, sectors),
        sphere_index_total(rings, sectors, true, true) == index_room(rings, sectors) - 6 * sectors,
{
    sphere_lengths(rings, 0, rings, sectors, zenith, nadir);
    assert(sectors * 0 == 0 && sectors * 1 == sectors && sectors * 2 == 2 * sectors);
}

/// Number of vertices of a cube: six independent faces, each a grid. Where the faces meet in space
/// they do not meet in the texture, so they share no vertex.
pub open spec fn cube_vertices(cells: int) -> int {
    6 * ((cells + 1) * (cells + 1))
}

/// Number of vertices of a cube at this tessellation.
pub fn cubemap_vertex_count(cells: u32) -> (n: usize)
    requires
        cube_vertices(cells as int) <= usize::MAX,
    ensures
        n == cube_vertices(cells as int),
{
    proof {
        let c = cells as int + 1;
        assert(c <= c * c) by (nonlinear_arith)
            requires
                c >= 1,
        ;
    }
    let side: usize = cells as usize + 1;
    6 * (side * side)
}

/// Number of indices of a cube: two triangles per cell, six faces.
pub open spec fn cube_index_total(cells: int) -> int {
    36 * (cells * cells)
}

/// Number of indices of a cube at this tessellation.
pub fn cubemap_index_count(cells: u32) -> (n: usize)
    requires
        cube_index_total(cells as int) <= usize::MAX,
    ensures
        n == cube_index_total(cells as int),
{
    let side: usize = cells as usize;
    36 * (side * side)
}

/// The indices of a cell of a cube's face, wound counter-clockwise *seen from the centre*, which is
/// where the viewer is.
///
/// ```text
/// c --- d   y + 1
/// |     |
/// a --- b   y
/// ```
pub open spec fn cube_cell(face: int, y: int, x: int, cells: int) -> Seq<u16> {
    let stride = cells + 1;
    let a = face * (stride * stride) + (y * stride + x);
    let b = (a + 1) as u16;
    let c = (a + stride) as u16;
    let d = (a + stride + 1) as u16;
    seq![a as u16, d, c, a as u16, b, d]
}

/// The indices of all cells before the one at `face`, `y` and `x`, face by face and row by row.
pub open spec fn cube_upto(face: int, y: int, x: int, cells: int) -> Seq<u16>
    decreases face, y, x,
{
    if x > 0 {
        cube_upto(face, y, x - 1, cells) + cube_cell(face, y, x - 1, cells)
    } else if y > 0 {
        cube_upto(face, y - 1, cells, cells)
    } else if face > 0 {
        cube_upto(face - 1, cells, 0, cells)
    } else {
        Seq::empty()
    }
}

/// The triangles of a cube, three indices each.
pub open spec fn cube_triangles(cells: int) -> Seq<u16> {
    cube_upto(6, 0, 0, cells)
}

/// Whether a cube of this tessellation has a surface that 16-bit indices can address.
pub open spec fn is_cube_tessellation(cells: int) -> bool {
    cells > 0 && cube_vertices(cells) <= MAX_VERTICES
}

fn cube_tessellation(cells: u32) -> (b: bool)
    ensures
        b == is_cube_tessellation(cells as int),
        b ==> cells <= 103,
{
    if cells == 0 {
        return false;
    }
    let ghost side = cells as int + 1;
    if cells > 103 {
        assert(side * side >= 105 * 105) by (nonlinear_arith)
            requires
                side >= 105,
        ;
        return false;
    }
    assert(side * side <= 104 * 104) by (nonlinear_arith)
        requires
            1 <= side <= 104,
    ;
    true
}

proof fn cube_lengths(face: int, y: int, x: int, cells: int)
    requires
        0 < cells,
        0 <= face <= 6,
        0 <= y <= cells,
        0 <= x <= cells,
        y == cells ==> x == 0,
        face == 6 ==> y == 0 && x == 0,
    ensures
        cube_upto(face, y, x, cells).len() == 6 * (face * (cells * cells) + y * cells + x),
    decreases face, y, x,
{
    if x > 0 {
        cube_lengths(face, y, x - 1, cells);
    } else if y > 0 {
        cube_lengths_row(face, y - 1, cells);
        assert((y - 1) * cells + cells == y * cells) by (nonlinear_arith);
    } else if face > 0 {
        cube_lengths(face - 1, cells, 0, cells);
        assert((face - 1) * (cells * cells) + cells * cells == face * (cells * cells))
            by (nonlinear_arith);
        assert(y * cells == 0) by (nonlinear_arith)
            requires
                y == 0,
        ;
    } else {
        assert(face * (cells * cells) == 0 && y * cells == 0) by (nonlinear_arith)
            requires
                y == 0,
                face == 0,
        ;
    }
}

proof fn cube_lengths_row(face: int, y: int, cells: int)
    requires
        0 < cells,
        0 <= face < 6,
        0 <= y < cells,
    ensures
        cube_upto(face, y, cells, cells).len() == 6 * (face * (cells * cells) + y * cells + cells),
    decreases face, y, cells,
{
    cube_lengths(face, y, cells - 1, cells);
}

proof fn cube_cell_fits(face: int, y: int, x: int, cells: int)
    requires
        is_cube_tessellation(cells),
        0 <= face < 6,
        0 <= y < cells,
        0 <= x < cells,
    ensures
        ({
            let stride = cells + 1;
            let a = face * (stride * stride) + (y * stride + x);
            &&& 0 <= face * (stride * stride)
            &&& 0 <= y * stride
            &&& y * stride + x + stride + 1 < stride * stride
            &&& face * (stride * stride) + stride * stride <= cube_vertices(cells)
            &&& a + stride + 1 < cube_vertices(cells)
        }),
{
    let stride = cells + 1;
    let square = stride * stride;
    assert(y * stride + stride + stride <= square && 0 <= y * stride) by (nonlinear_arith)
        requires
            0 <= y,
            y + 2 <= stride,
            square == stride * stride,
    ;
    assert(0 <= face * square && face * square + square <= 6 * square) by (nonlinear_arith)
        requires
            0 <= face < 6,
            0 <= square,
    ;
}

/// Writes the triangle indices of a cube.
///
/// Returns the number of indices written, or `None` where the tessellation is unusable or the
/// output slice too short; nothing is written then.
pub fn cubemap_indices(cells: u32, out: &mut [u16]) -> (r: Option<usize>)
    ensures
        final(out)@.len() == old(out)@.len(),
        match r {
            Some(n) => {
                &&& is_cube_tessellation(cells as int)
                &&& n == cube_index_total(cells as int)
                &&& n <= old(out)@.len()
                &&& final(out)@ == cube_triangles(cells as int) + old(out)@.skip(n as int)
            },
            None => {
                &&& !is_cube_tessellation(cells as int) || old(out)@.len() < cube_index_total(
                    cells as int,
                )
                &&& final(out)@ == old(out)@
            },
        },
{
    if !cube_tessellation(cells) {
        return None;
    }
    let ghost n = cells as int;
    proof {
        assert(n * n <= 103 * 103 && 0 <= n * n) by (nonlinear_arith)
            requires
                0 <= n <= 103,
        ;
        assert((n + 1) * (n + 1) <= 104 * 104) by (nonlinear_arith)
            requires
                0 <= n <= 103,
        ;
        cube_lengths(6, 0, 0, n);
    }
    let count: usize = cubemap_index_count(cells);
    if out.len() < count {
        return None;
    }
    let ghost before = out@;
    let stride: u32 = cells + 1;
    let per_face: u16 = (stride * stride) as u16;
    let mut w: usize = 0;
    let mut face: u16 = 0;
    assert(out@.take(0) =~= Seq::<u16>::empty());
    while face < 6
        invariant
            n == cells,
            cells <= 103,
            is_cube_tessellation(n),
            stride == cells + 1,
            per_face == stride * stride,
            face <= 6,
            out@.len() == before.len(),
            count <= out@.len(),
            count == 36 * (n * n),
            w == cube_upto(face as int, 0, 0, n).len(),
            out@.take(w as int) == cube_upto(face as int, 0, 0, n),
            out@.skip(count as int) == before.skip(count as int),
        decreases 6 - face,
    {
        let mut y: u32 = 0;
        while y < cells
            invariant
                n == cells,
                cells <= 103,
                is_cube_tessellation(n),
                stride == cells + 1,
                per_face == stride * stride,
                face < 6,
                y <= cells,
                out@.len() == before.len(),
                count <= out@.len(),
                count == 36 * (n * n),
                w == cube_upto(face as int, y as int, 0, n).len(),
                out@.take(w as int) == cube_upto(face as int, y as int, 0, n),
                out@.skip(count as int) == before.skip(count as int),
            decreases cells - y,
        {
            let mut x: u32 = 0;
            while x < cells
                invariant
                    n == cells,
                    cells <= 103,
                    is_cube_tessellation(n),
                    stride == cells + 1,
                    per_face == stride * stride,
                    face < 6,
                    y < cells,
                    x <= cells,
                    out@.len() == before.len(),
                    count <= out@.len(),
                    count == 36 * (n * n),
                    w == cube_upto(face as int, y as int, x as int, n).len(),
                    out@.take(w as int) == cube_upto(face as int, y as int, x as int, n),
                    out@.skip(count as int) == before.skip(count as int),
                decreases cells - x,
            {
                let ghost done = cube_upto(face as int, y as int, x as int, n);
                let ghost cell = cube_cell(face as int, y as int, x as int, n);
                let ghost prior = out@;
                proof {
                    cube_cell_fits(face as int, y as int, x as int, n);
                    cube_lengths(face as int, y as int, x as int, n);
                    let f = face as int;
                    let q = n * n;
                    let i = y as int;
                    assert(f * q + q <= 6 * q) by (nonlinear_arith)
                        requires
                            0 <= f < 6,
                            0 <= q,
                    ;
                    assert(i * n + n <= q) by (nonlinear_arith)
                        requires
                            0 <= i < n,
                            q == n * n,
                    ;
                    assert(w + 6 <= count);
                    assert(face * per_face == face * (stride * stride));
                }
                let a: u16 = face * per_face + (y * stride + x) as u16;
                let b: u16 = a + 1;
                let c: u16 = a + stride as u16;
                let d: u16 = c + 1;
                out[w] = a;
                out[w + 1] = d;
                out[w + 2] = c;
                out[w + 3] = a;
                out[w + 4] = b;
                out[w + 5] = d;
                w += 6;
                proof {
                    assert(out@.take(w as int) =~= done + cell) by {
                        assert forall|k: int| 0 <= k < done.len() implies out@[k] == done[k] by {
                            assert(prior.take(done.len() as int)[k] == prior[k]);
                        }
                    }
                    assert(out@.skip(count as int) =~= prior.skip(count as int));
                    assert(cube_upto(face as int, y as int, x + 1, n) == done + cell);
                }
                x += 1;
            }
            y += 1;
        }
        face += 1;
    }
    assert(out@ =~= cube_triangles(n) + before.skip(count as int)) by {
        assert forall|k: int| count <= k < out@.len() implies out@[k] == before[k] by {
            assert(out@.skip(count as int)[k - count] == out@[k]);
            assert(before.skip(count as int)[k - count] == before[k]);
        }
        assert forall|k: int| 0 <= k < count implies out@[k] == cube_triangles(n)[k] by {
            assert(out@.take(count as int)[k] == out@[k]);
        }
    }
    Some(count)
}

/// The direction in which the middle of a cube's face lies. Straight ahead is `-Z`, up is `+Y`, and
/// turning right goes towards `+X`.
pub open spec fn cube_centre(face: int) -> (int, int, int) {
    if face == 0 {
        (1, 0, 0)
    } else if face == 1 {
        (-1, 0, 0)
    } else if face == 2 {
        (0, 1, 0)
    } else if face == 3 {
        (0, -1, 0)
    } else if face == 4 {
        (0, 0, -1)
    } else {
        (0, 0, 1)
    }
}

/// The world direction along which image-right points once you are looking at a face.
pub open spec fn cube_right(face: int) -> (int, int, int) {
    if face == 0 {
        (0, 0, 1)
    } else if face == 1 {
        (0, 0, -1)
    } else if face == 2 {
        (-1, 0, 0)
    } else if face == 3 {
        (-1, 0, 0)
    } else if face == 4 {
        (1, 0, 0)
    } else {
        (-1, 0, 0)
    }
}

/// The world direction along which image-up points once you are looking at a face. Tilt your head
/// back and the top of the ceiling points forward; look down and the top of the floor points
/// backwards.
pub open spec fn cube_up(face: int) -> (int, int, int) {
    if face == 0 {
        (0, 1, 0)
    } else if face == 1 {
        (0, 1, 0)
    } else if face == 2 {
        (0, 0, -1)
    } else if face == 3 {
        (0, 0, 1)
    } else if face == 4 {
        (0, 1, 0)
    } else {
        (0, 1, 0)
    }
}

/// The faces of a cube lie to the right, to the left, above, below, ahead and behind, in this order;
/// on the four walls image-up is up, on the ceiling it is ahead and on the floor it is behind; and a
/// viewer who looks at the middle of a face with image-up upwards has image-right to the right.
pub proof fn a_viewer_sees_every_face_upright(face: int)
    requires
        0 <= face < 6,
    ensures
        cube_right(face) == cross(cube_centre(face), cube_up(face)),
        dot(cube_centre(face), cube_up(face)) == 0,
        dot(cube_centre(face), (0, 1, 0)) == 0 ==> cube_up(face) == (0int, 1int, 0int),
        dot(cube_centre(face), (0, 1, 0)) > 0 ==> cube_up(face) == (0int, 0int, -1int),
        dot(cube_centre(face), (0, 1, 0)) < 0 ==> cube_up(face) == (0int, 0int, 1int),
        face / 2 == 0 ==> cube_centre(face) == (1 - 2 * (face % 2), 0int, 0int),
        face / 2 == 1 ==> cube_centre(face) == (0int, 1 - 2 * (face % 2), 0int),
        face / 2 == 2 ==> cube_centre(face) == (0int, 0int, 2 * (face % 2) - 1),
{
    if face == 0 {
        assert(cube_centre(face) == (1int, 0int, 0int) && cube_up(face) == (0int, 1int, 0int));
    } else if face == 1 {
        assert(cube_centre(face) == (-1int, 0int, 0int) && cube_up(face) == (0int, 1int, 0int));
    } else if face == 2 {
        assert(cube_centre(face) == (0int, 1int, 0int) && cube_up(face) == (0int, 0int, -1int));
    } else if face == 3 {
        assert(cube_centre(face) == (0int, -1int, 0int) && cube_up(face) == (0int, 0int, 1int));
    } else if face == 4 {
        assert(cube_centre(face) == (0int, 0int, -1int) && cube_up(face) == (0int, 1int, 0int));
    } else if face == 5 {
        assert(cube_centre(face) == (0int, 0int, 1int) && cube_up(face) == (0int, 1int, 0int));
    }
}

/// One face of a cube map: where it points, and where its picture sits in the 3x2 grid.
#[derive(Clone, Copy, Debug)]
pub struct CubeFace {
    pub centre: [i8; 3],
    pub right: [i8; 3],
    pub up: [i8; 3],
    pub column: u32,
    pub row: u32,
}

/// A direction as three numbers.
pub open spec fn direction(v: Seq<i8>) -> (int, int, int) {
    (v[0] as int, v[1] as int, v[2] as int)
}

/// The six faces, in the order and orientation the `cbmp` box's layout 0 packs them into a 3x2 grid.
pub fn cube_faces() -> (faces: [CubeFace; 6])
    ensures
        forall|f: int|
            0 <= f < 6 ==> {
                let face = #[trigger] faces@[f];
                &&& direction(face.centre@) == cube_centre(f)
                &&& direction(face.right@) == cube_right(f)
                &&& direction(face.up@) == cube_up(f)
                &&& face.column == f % 3
                &&& face.row == f / 3
            },
{
    [
        CubeFace {
            centre: [1, 0, 0],
            right: [0, 0, 1],
            up: [0, 1, 0],
            column: 0,
            row: 0,
        },
        CubeFace {
            centre: [-1, 0, 0],
            right: [0, 0, -1],
            up: [0, 1, 0],
            column: 1,
            row: 0,
        },
        CubeFace {
            centre: [0, 1, 0],
            right: [-1, 0, 0],
            up: [0, 0, -1],
            column: 2,
            row: 0,
        },
        CubeFace {
            centre: [0, -1, 0],
            right: [-1, 0, 0],
            up: [0, 0, 1],
            column: 0,
            row: 1,
        },
        CubeFace {
            centre: [0, 0, -1],
            right: [1, 0, 0],
            up: [0, 1, 0],
            column: 1,
            row: 1,
        },
        CubeFace {
            centre: [0, 0, 1],
            right: [-1, 0, 0],
            up: [0, 1, 0],
            column: 2,
            row: 1,
        },
    ]
}

/// The sum of two directions.
pub open spec fn plus(a: (int, int, int), b: (int, int, int)) -> (int, int, int) {
    (a.0 + b.0, a.1 + b.1, a.2 + b.2)
}

/// A direction, so many times.
pub open spec fn times(a: (int, int, int), k: int) -> (int, int, int) {
    (a.0 * k, a.1 * k, a.2 * k)
}

/// The scalar product of two directions.
pub open spec fn dot(a: (int, int, int), b: (int, int, int)) -> int {
    a.0 * b.0 + a.1 * b.1 + a.2 * b.2
}

/// The cross product of two directions.
pub open spec fn cross(a: (int, int, int), b: (int, int, int)) -> (int, int, int) {
    (a.1 * b.2 - a.2 * b.1, a.2 * b.0 - a.0 * b.2, a.0 * b.1 - a.1 * b.0)
}

/// The crossing `x` and `y` of a face's grid in space, on a cube that reaches `cells` in every
/// direction.
pub open spec fn cube_point(face: int, x: int, y: int, cells: int) -> (int, int, int) {
    plus(
        times(cube_centre(face), cells),
        plus(times(cube_right(face), 2 * x - cells), times(cube_up(face), 2 * y - cells)),
    )
}

/// Whether a triangle faces the centre of the cube: its normal points back from where it lies.
pub open spec fn faces_the_centre(
    p: (int, int, int),
    q: (int, int, int),
    r: (int, int, int),
) -> bool {
    dot(cross(plus(q, times(p, -1)), plus(r, times(p, -1))), p) < 0
}

proof fn times_unit(d: (int, int, int), k: int)
    requires
        -1 <= d.0 <= 1,
        -1 <= d.1 <= 1,
        -1 <= d.2 <= 1,
    ensures
        times(d, k) == (unit_times(d.0, k), unit_times(d.1, k), unit_times(d.2, k)),
{
    let (x, y, z) = d;
    assert(x * k == unit_times(x, k) && y * k == unit_times(y, k) && z * k == unit_times(z, k))
        by (nonlinear_arith)
        requires
            -1 <= x <= 1,
            -1 <= y <= 1,
            -1 <= z <= 1,
    ;
}

spec fn unit_times(v: int, k: int) -> int {
    if v == 1 {
        k
    } else if v == -1 {
        -k
    } else {
        0
    }
}

spec fn point_coordinates(face: int, a: int, b: int, n: int) -> (int, int, int) {
    if face == 0 {
        (n, b, a)
    } else if face == 1 {
        (-n, b, -a)
    } else if face == 2 {
        (-a, n, -b)
    } else if face == 3 {
        (-a, -n, b)
    } else if face == 4 {
        (a, b, -n)
    } else {
        (-a, b, n)
    }
}

proof fn cube_point_coordinates(face: int, x: int, y: int, cells: int)
    requires
        0 <= face < 6,
    ensures
        cube_point(face, x, y, cells) == point_coordinates(
            face,
            2 * x - cells,
            2 * y - cells,
            cells,
        ),
{
    times_unit(cube_centre(face), cells);
    times_unit(cube_right(face), 2 * x - cells);
    times_unit(cube_up(face), 2 * y - cells);
}

proof fn cube_indices_fit(face: int, y: int, x: int, cells: int, k: int)
    requires
        is_cube_tessellation(cells),
        0 <= face <= 6,
        0 <= y <= cells,
        0 <= x <= cells,
        y == cells ==> x == 0,
        face == 6 ==> y == 0 && x == 0,
        0 <= k < cube_upto(face, y, x, cells).len(),
    ensures
        cube_upto(face, y, x, cells)[k] < cube_vertices(cells),
    decreases face, y, x,
{
    if x > 0 {
        let before = cube_upto(face, y, x - 1, cells);
        if k < before.len() {
            cube_indices_fit(face, y, x - 1, cells, k);
        } else {
            cube_cell_fits(face, y, x - 1, cells);
            let cell = cube_cell(face, y, x - 1, cells);
            let i = k - before.len();
            assert(cell.len() == 6);
            assert(i == 0 || i == 1 || i == 2 || i == 3 || i == 4 || i == 5);
            assert(cell[i] < cube_vertices(cells));
        }
    } else if y > 0 {
        cube_indices_fit(face, y - 1, cells, cells, k);
    } else if face > 0 {
        cube_indices_fit(face - 1, cells, 0, cells, k);
    }
}

/// The indices of a cube stay in the range of its vertices.
pub proof fn cube_indices_stay_in_range(cells: int, k: int)
    requires
        is_cube_tessellation(cells),
        0 <= k < cube_triangles(cells).len(),
    ensures
        cube_triangles(cells)[k] < cube_vertices(cells),
{
    cube_indices_fit(6, 0, 0, cells, k);
}

proof fn cube_cell_is_kept(
    face: int,
    y: int,
    x: int,
    until_face: int,
    until_y: int,
    until_x: int,
    cells: int,
)
    requires
        0 < cells,
        0 <= face < 6,
        0 <= y < cells,
        0 <= x < cells,
        0 <= until_face <= 6,
        0 <= until_y <= cells,
        0 <= until_x <= cells,
        until_y == cells ==> until_x == 0,
        until_face == 6 ==> until_y == 0 && until_x == 0,
        until_face > face || (until_face == face && (until_y > y || (until_y == y && until_x > x))),
    ensures
        ({
            let at = 6 * (face * (cells * cells) + y * cells + x);
            let upto = cube_upto(until_face, until_y, until_x, cells);
            &&& 0 <= at
            &&& at + 6 <= upto.len()
            &&& upto.subrange(at, at + 6) == cube_cell(face, y, x, cells)
        }),
    decreases until_face, until_y, until_x,
{
    let at = 6 * (face * (cells * cells) + y * cells + x);
    assert(0 <= at) by (nonlinear_arith)
        requires
            at == 6 * (face * (cells * cells) + y * cells + x),
            0 < cells,
            0 <= face,
            0 <= y,
            0 <= x,
    ;
    let upto = cube_upto(until_face, until_y, until_x, cells);
    if until_x > 0 {
        let before = cube_upto(until_face, until_y, until_x - 1, cells);
        if until_face == face && until_y == y && until_x - 1 == x {
            cube_lengths(face, y, x, cells);
        } else {
            cube_cell_is_kept(face, y, x, until_face, until_y, until_x - 1, cells);
            assert(upto.subrange(at, at + 6) =~= before.subrange(at, at + 6));
        }
        assert(upto.subrange(at, at + 6) =~= cube_cell(face, y, x, cells));
    } else if until_y > 0 {
        cube_cell_is_kept(face, y, x, until_face, until_y - 1, cells, cells);
    } else {
        cube_cell_is_kept(face, y, x, until_face - 1, cells, 0, cells);
    }
}

/// A cube leaves out no cell of any face: each has its six indices, face by face and row by row.
pub proof fn every_cube_cell_is_there(face: int, y: int, x: int, cells: int)
    requires
        is_cube_tessellation(cells),
        0 <= face < 6,
        0 <= y < cells,
        0 <= x < cells,
    ensures
        ({
            let at = 6 * (face * (cells * cells) + y * cells + x);
            &&& 0 <= at
            &&& at + 6 <= cube_triangles(cells).len()
            &&& cube_triangles(cells).subrange(at, at + 6) == cube_cell(face, y, x, cells)
        }),
{
    cube_cell_is_kept(face, y, x, 6, 0, 0, cells);
}

/// Every triangle of a cube faces the viewer at the centre.
pub proof fn every_cube_triangle_faces_the_viewer(face: int, x: int, y: int, cells: int)
    requires
        0 <= face < 6,
        0 <= x < cells,
        0 <= y < cells,
    ensures
        ({
            let a = cube_point(face, x, y, cells);
            let b = cube_point(face, x + 1, y, cells);
            let c = cube_point(face, x, y + 1, cells);
            let d = cube_point(face, x + 1, y + 1, cells);
            faces_the_centre(a, d, c) && faces_the_centre(a, b, d)
        }),
{
    cube_point_coordinates(face, x, y, cells);
    cube_point_coordinates(face, x + 1, y, cells);
    cube_point_coordinates(face, x, y + 1, cells);
    cube_point_coordinates(face, x + 1, y + 1, cells);
    let s = 2 * x - cells;
    let t = 2 * y - cells;
    let a = point_coordinates(face, s, t, cells);
    let b = point_coordinates(face, s + 2, t, cells);
    let c = point_coordinates(face, s, t + 2, cells);
    let d = point_coordinates(face, s + 2, t + 2, cells);
    cell_faces_the_centre(face, s, t, cells);
    assert(faces_the_centre(a, d, c) && faces_the_centre(a, b, d));
}

proof fn cell_faces_the_centre(face: int, s: int, t: int, n: int)
    by (nonlinear_arith)
    requires
        0 <= face < 6,
        0 < n,
    ensures
        faces_the_centre(
            point_coordinates(face, s, t, n),
            point_coordinates(face, s + 2, t + 2, n),
            point_coordinates(face, s, t + 2, n),
        ),
        faces_the_centre(
            point_coordinates(face, s, t, n),
            point_coordinates(face, s + 2, t, n),
            point_coordinates(face, s + 2, t + 2, n),
        ),
{
}

/// The number of a vertex of a cube.
pub open spec fn cube_vertex(face: int, x: int, y: int, cells: int) -> int {
    face * ((cells + 1) * (cells + 1)) + (y * (cells + 1) + x)
}

/// A cell of a cube is drawn as the triangles that face the viewer.
pub proof fn a_cube_cell_is_its_two_triangles(face: int, x: int, y: int, cells: int)
    requires
        is_cube_tessellation(cells),
        0 <= face < 6,
        0 <= x < cells,
        0 <= y < cells,
    ensures
        ({
            let a = cube_vertex(face, x, y, cells);
            let b = cube_vertex(face, x + 1, y, cells);
            let c = cube_vertex(face, x, y + 1, cells);
            let d = cube_vertex(face, x + 1, y + 1, cells);
            let cell = cube_cell(face, y, x, cells);
            &&& cell.len() == 6
            &&& cell[0] == a && cell[1] == d && cell[2] == c
            &&& cell[3] == a && cell[4] == b && cell[5] == d
        }),
{
    cube_cell_fits(face, y, x, cells);
    assert((y + 1) * (cells + 1) == y * (cells + 1) + (cells + 1)) by (nonlinear_arith);
}

/// The face that points in a direction.
pub open spec fn face_towards(d: (int, int, int)) -> int {
    if d == (1int, 0int, 0int) {
        0
    } else if d == (-1int, 0int, 0int) {
        1
    } else if d == (0int, 1int, 0int) {
        2
    } else if d == (0int, -1int, 0int) {
        3
    } else if d == (0int, 0int, -1int) {
        4
    } else {
        5
    }
}

proof fn dot_unit(d: (int, int, int), v: (int, int, int))
    requires
        -1 <= d.0 <= 1,
        -1 <= d.1 <= 1,
        -1 <= d.2 <= 1,
    ensures
        dot(d, v) == unit_times(d.0, v.0) + unit_times(d.1, v.1) + unit_times(d.2, v.2),
{
    let (x, y, z) = d;
    let (a, b, c) = v;
    assert(x * a == unit_times(x, a) && y * b == unit_times(y, b) && z * c == unit_times(z, c))
        by (nonlinear_arith)
        requires
            -1 <= x <= 1,
            -1 <= y <= 1,
            -1 <= z <= 1,
    ;
}

/// The faces of a cube meet without a gap: whatever lies on the edge of a face lies on the face
/// next to it too.
pub proof fn faces_meet_at_their_edges(face: int, x: int, y: int, cells: int)
    requires
        0 <= face < 6,
        0 < cells,
        0 <= x <= cells,
        0 <= y <= cells,
        x == 0 || x == cells || y == 0 || y == cells,
    ensures
        exists|f: int, i: int, j: int|
            0 <= f < 6 && f != face && 0 <= i <= cells && 0 <= j <= cells && #[trigger] cube_point(
                f,
                i,
                j,
                cells,
            ) == cube_point(face, x, y, cells),
{
    let towards = if x == cells {
        cube_right(face)
    } else if x == 0 {
        times(cube_right(face), -1)
    } else if y == cells {
        cube_up(face)
    } else {
        times(cube_up(face), -1)
    };
    let f = face_towards(towards);
    times_unit(cube_right(face), -1);
    times_unit(cube_up(face), -1);
    times_unit(towards, -cells);
    cube_point_coordinates(face, x, y, cells);
    let rest = plus(cube_point(face, x, y, cells), times(towards, -cells));
    dot_unit(cube_right(f), rest);
    dot_unit(cube_up(f), rest);
    let i = (cells + dot(cube_right(f), rest)) / 2;
    let j = (cells + dot(cube_up(f), rest)) / 2;
    cube_point_coordinates(f, i, j, cells);
    assert(cube_point(f, i, j, cells) == cube_point(face, x, y, cells));
}

/// Vertices of a screen: two rows of `segments + 1` columns, wound as one triangle strip.
pub open spec fn screen_vertices(segments: int) -> int {
    2 * (segments + 1)
}

/// Vertices of a screen for a given number of segments.
pub fn screen_vertex_count(segments: u32) -> (n: usize)
    requires
        screen_vertices(segments as int) <= usize::MAX,
    ensures
        n == screen_vertices(segments as int),
{
    2 * (segments as usize + 1)
}

/// How many vertices a mesh over a patch of the sphere takes, where the tessellation is usable, the
/// crops leave something to draw, and a buffer of `capacity` floats has room for it.
pub fn sphere_mesh_size(rings: u32, sectors: u32, bounds: Bounds, capacity: usize) -> (r: Option<
    usize,
>)
    ensures
        ({
            let count = sphere_vertices(rings as int, sectors as int);
            let usable = is_tessellation(rings as int, sectors as int)
                && bounds.leaves_something() && 5 * count <= capacity;
            match r {
                Some(n) => usable && n == count,
                None => !usable,
            }
        }),
{
    if !tessellation(rings, sectors) || !bounds.is_usable() {
        return None;
    }
    let count: usize = vertex_count(rings, sectors);
    if capacity < VERTEX_FLOATS * count {
        return None;
    }
    Some(count)
}

/// How many vertices a cube takes, where the tessellation is usable and a buffer of `capacity`
/// floats has room for it.
pub fn cubemap_mesh_size(cells: u32, capacity: usize) -> (r: Option<usize>)
    ensures
        ({
            let count = cube_vertices(cells as int);
            let usable = is_cube_tessellation(cells as int) && 5 * count <= capacity;
            match r {
                Some(n) => usable && n == count,
                None => !usable,
            }
        }),
{
    if !cube_tessellation(cells) {
        return None;
    }
    let count: usize = cubemap_vertex_count(cells);
    if capacity < VERTEX_FLOATS * count {
        return None;
    }
    Some(count)
}

/// How many vertices a screen takes, where it has a segment at all and a buffer of `capacity` floats
/// has room for it.
pub fn screen_mesh_size(segments: u32, capacity: usize) -> (r: Option<usize>)
    ensures
        ({
            let count = screen_vertices(segments as int);
            let usable = segments > 0 && 5 * count <= capacity;
            match r {
                Some(n) => usable && n == count,
                None => !usable,
            }
        }),
{
    if segments == 0 || capacity / 10 <= segments as usize {
        return None;
    }
    Some(screen_vertex_count(segments))
}

/// Where a vertex of a sphere's mesh belongs: the ring, counted from the top of the covered patch, and
/// the sector, counted from the left edge of the picture.
#[derive(Clone, Copy, Debug, PartialEq, Eq, Structural)]
pub struct SpherePlace {
    pub ring: u32,
    pub sector: u32,
}

/// Where the vertex with a given index belongs. Rows run from the top of the patch down, and in each
/// from left to right, the way the index buffer walks them.
pub fn sphere_place(index: u32, sectors: u32) -> (place: SpherePlace)
    requires
        sectors < u32::MAX,
    ensures
        place.sector <= sectors,
        grid_vertex(place.ring as int, place.sector as int, sectors as int) == index,
{
    let stride: u32 = sectors + 1;
    let place = SpherePlace { ring: index / stride, sector: index % stride };
    proof {
        vstd::arithmetic::div_mod::lemma_fundamental_div_mod(index as int, stride as int);
        vstd::arithmetic::mul::lemma_mul_is_commutative(stride as int, (index / stride) as int);
    }
    place
}

/// Every crossing of a ring and a sector has a vertex, and only one: the vertices of a mesh are the
/// ones that its index buffer speaks of.
pub proof fn every_crossing_has_its_vertex(
    ring: int,
    sector: int,
    other_ring: int,
    other_sector: int,
    rings: int,
    sectors: int,
)
    requires
        0 <= ring <= rings,
        0 <= sector <= sectors,
        0 <= other_ring <= rings,
        0 <= other_sector <= sectors,
    ensures
        0 <= grid_vertex(ring, sector, sectors) < sphere_vertices(rings, sectors),
        grid_vertex(ring, sector, sectors) == grid_vertex(other_ring, other_sector, sectors) ==> ring
            == other_ring && sector == other_sector,
{
    assert(0 <= ring * (sectors + 1) + sector < (rings + 1) * (sectors + 1)) by (nonlinear_arith)
        requires
            0 <= ring <= rings,
            0 <= sector <= sectors,
    ;
    if grid_vertex(ring, sector, sectors) == grid_vertex(other_ring, other_sector, sectors) {
        assert(ring == other_ring) by (nonlinear_arith)
            requires
                0 <= sector <= sectors,
                0 <= other_sector <= sectors,
                ring * (sectors + 1) + sector == other_ring * (sectors + 1) + other_sector,
        ;
    }
}

/// Where a vertex of a cube's mesh belongs: the face, and the crossing on it, counted from the
/// picture's lower left corner.
#[derive(Clone, Copy, Debug, PartialEq, Eq, Structural)]
pub struct CubePlace {
    pub face: u32,
    pub x: u32,
    pub y: u32,
}

/// Where the vertex with a given index belongs: face by face, and on each from the bottom row up.
pub fn cube_place(index: u32, cells: u32) -> (place: CubePlace)
    requires
        is_cube_tessellation(cells as int),
        index < cube_vertices(cells as int),
    ensures
        place.face < 6,
        place.x <= cells,
        place.y <= cells,
        cube_vertex(place.face as int, place.x as int, place.y as int, cells as int) == index,
{
    proof {
        let side = cells as int + 1;
        assert(side <= side * side) by (nonlinear_arith)
            requires
                side >= 1,
        ;
    }
    let side: u32 = cells + 1;
    let on_face: u32 = side * side;
    let face: u32 = index / on_face;
    let rest: u32 = index % on_face;
    let place = CubePlace { face, x: rest % side, y: rest / side };
    proof {
        let (k, s, f) = (index as int, side as int, on_face as int);
        vstd::arithmetic::div_mod::lemma_fundamental_div_mod(k, f);
        vstd::arithmetic::mul::lemma_mul_is_commutative(f, k / f);
        assert(k / f < 6) by (nonlinear_arith)
            requires
                f > 0,
                0 <= k < 6 * f,
        ;
        vstd::arithmetic::div_mod::lemma_fundamental_div_mod(rest as int, s);
        vstd::arithmetic::mul::lemma_mul_is_commutative(s, rest as int / s);
        assert(rest as int / s < s) by (nonlinear_arith)
            requires
                s > 0,
                0 <= rest < s * s,
        ;
    }
    place
}

/// Every crossing of a face's grid has a vertex, and only one.
pub proof fn every_cube_crossing_has_its_vertex(a: CubePlace, b: CubePlace, cells: int)
    requires
        a.face < 6 && a.x <= cells && a.y <= cells,
        b.face < 6 && b.x <= cells && b.y <= cells,
    ensures
        ({
            let k = cube_vertex(a.face as int, a.x as int, a.y as int, cells);
            let other = cube_vertex(b.face as int, b.x as int, b.y as int, cells);
            &&& 0 <= k < cube_vertices(cells)
            &&& k == other ==> a == b
        }),
{
    let side = cells + 1;
    let (i, j) = (a.y * side + a.x, b.y * side + b.x);
    every_crossing_has_its_vertex(
        a.y as int,
        a.x as int,
        b.y as int,
        b.x as int,
        cells,
        cells,
    );
    every_crossing_has_its_vertex(
        b.y as int,
        b.x as int,
        a.y as int,
        a.x as int,
        cells,
        cells,
    );
    let f = side * side;
    assert(0 <= a.face * f + i < 6 * f) by (nonlinear_arith)
        requires
            0 <= a.face < 6,
            0 <= i < f,
    ;
    if a.face * f + i == b.face * f + j {
        assert(a.face == b.face) by (nonlinear_arith)
            requires
                0 <= i < f,
                0 <= j < f,
                a.face * f + i == b.face * f + j,
        ;
    }
}

/// Where a vertex of a screen's mesh belongs: the column, counted from the left, and whether it is the
/// upper of that column's two.
#[derive(Clone, Copy, Debug, PartialEq, Eq, Structural)]
pub struct ScreenPlace {
    pub column: usize,
    pub upper: bool,
}

/// Where the vertex with a given index belongs.
pub open spec fn screen_spot(index: int) -> (int, int) {
    (index / 2, 1 - index % 2)
}

/// Where the vertex with a given index belongs: column by column, and the upper one of each first.
pub fn screen_place(index: usize) -> (place: ScreenPlace)
    ensures
        screen_spot(index as int) == (place.column as int, if place.upper { 1int } else { 0int }),
{
    ScreenPlace { column: index / 2, upper: index % 2 == 0 }
}

/// Twice the area of a triangle in a plane, positive where its corners run counter-clockwise.
pub open spec fn turn(a: (int, int), b: (int, int), c: (int, int)) -> int {
    (b.0 - a.0) * (c.1 - a.1) - (b.1 - a.1) * (c.0 - a.0)
}

/// Every triangle of a screen's strip is half of a cell and runs counter-clockwise seen from in front,
/// where every other triangle of a strip has its first two corners exchanged.
pub proof fn the_strip_faces_the_viewer(k: int)
    requires
        0 <= k,
    ensures
        k % 2 == 0 ==> turn(screen_spot(k), screen_spot(k + 1), screen_spot(k + 2)) == 1,
        k % 2 == 1 ==> turn(screen_spot(k + 1), screen_spot(k), screen_spot(k + 2)) == 1,
{
    let c = k / 2;
    if k % 2 == 0 {
        assert(screen_spot(k) == (c, 1int) && screen_spot(k + 1) == (c, 0int));
        assert(screen_spot(k + 2) == (c + 1, 1int));
        assert(turn((c, 1), (c, 0), (c + 1, 1)) == 1) by (nonlinear_arith);
    } else {
        assert(screen_spot(k + 1) == (c + 1, 1int) && screen_spot(k) == (c, 0int));
        assert(screen_spot(k + 2) == (c + 1, 0int));
        assert(turn((c + 1, 1), (c, 0), (c + 1, 0)) == 1) by (nonlinear_arith);
    }
}

/// A pair of glasses this driver knows the optics of.
///
/// The field of view cannot be worked out from inside the software; it is a property of lenses. What
/// the software *can* do is recognise which glasses it is talking to and look the number up.
#[derive(Clone, Copy, Debug, PartialEq, Eq)]
pub struct Model {
    /// USB product id, which is how the glasses are told apart.
    pub product_id: u16,
    pub name: &'static str,
    /// Diagonal field of view in degrees, as the manufacturer publishes it.
    pub diagonal_fov_deg: u32,
    pub eye_width: u32,
    pub eye_height: u32,
    /// Whether these numbers were checked against the hardware or taken from the manufacturer.
    pub verified: bool,
}

/// The glasses this driver has numbers for. Product ids beyond the Pro 2's are not known, so those
/// entries are matched by nothing yet.
pub open spec fn models() -> Seq<Model> {
    seq![
        Model {
            product_id: 0x1301,
            name: "VITURE Pro 2",
            diagonal_fov_deg: 50,
            eye_width: 1920,
            eye_height: 1080,
            verified: true,
        },
        Model {
            product_id: 0,
            name: "VITURE Luma",
            diagonal_fov_deg: 52,
            eye_width: 1920,
            eye_height: 1080,
            verified: false,
        },
        Model {
            product_id: 0,
            name: "VITURE Luma Ultra",
            diagonal_fov_deg: 52,
            eye_width: 1920,
            eye_height: 1080,
            verified: false,
        },
        Model {
            product_id: 0,
            name: "VITURE Beast",
            diagonal_fov_deg: 58,
            eye_width: 1920,
            eye_height: 1200,
            verified: false,
        },
    ]
}

/// The glasses this driver has numbers for.
pub fn known_models() -> (m: [Model; 4])
    ensures
        m@ == models(),
{
    let m = [
        Model {
            product_id: 0x1301,
            name: "VITURE Pro 2",
            diagonal_fov_deg: 50,
            eye_width: 1920,
            eye_height: 1080,
            verified: true,
        },
        Model {
            product_id: 0,
            name: "VITURE Luma",
            diagonal_fov_deg: 52,
            eye_width: 1920,
            eye_height: 1080,
            verified: false,
        },
        Model {
            product_id: 0,
            name: "VITURE Luma Ultra",
            diagonal_fov_deg: 52,
            eye_width: 1920,
            eye_height: 1080,
            verified: false,
        },
        Model {
            product_id: 0,
            name: "VITURE Beast",
            diagonal_fov_deg: 58,
            eye_width: 1920,
            eye_height: 1200,
            verified: false,
        },
    ];
    assert(m@ =~= models());
    m
}

/// Whether a product id is that of known glasses. Zero never is, which keeps the entries without an
/// id from being chosen by accident.
pub open spec fn is_known(product_id: u16) -> bool {
    product_id != 0 && exists|i: int|
        0 <= i < models().len() && (#[trigger] models()[i]).product_id == product_id
}

/// The glasses with this product id, if they are known.
pub fn model_for(product_id: u16) -> (r: Option<Model>)
    ensures
        match r {
            Some(m) => {
                &&& is_known(product_id)
                &&& m.product_id == product_id
                &&& models().contains(m)
            },
            None => !is_known(product_id),
        },
{
    if product_id == 0 {
        return None;
    }
    let known = known_models();
    let mut i: usize = 0;
    while i < 4
        invariant
            i <= 4,
            product_id != 0,
            known@ == models(),
            forall|k: int| 0 <= k < i ==> (#[trigger] models()[k]).product_id != product_id,
        decreases 4 - i,
    {
        if known[i].product_id == product_id {
            assert(models()[i as int].product_id == product_id);
            return Some(known[i]);
        }
        i += 1;
    }
    None
}

/// Only the Pro 2 can be matched, and it is the one that was actually measured.
pub proof fn only_the_measured_glasses_are_known(product_id: u16)
    ensures
        is_known(product_id) <==> product_id == 0x1301,
        forall|i: int|
            0 <= i < models().len() ==> ((#[trigger] models()[i]).verified <==> models()[i].product_id
                == 0x1301),
{
    assert(models()[0].product_id == 0x1301);
}

/// Diagonal field of view of the panel, in degrees, where the glasses are not known.
pub const PANEL_DIAGONAL_FOV_DEG: u32 = 50;

/// Diagonal field of view to render at, in degrees. Unknown glasses get the Pro 2's angle.
pub fn diagonal_for(product_id: u16) -> (degrees: u32)
    ensures
        is_known(product_id) ==> exists|i: int|
            0 <= i < models().len() && (#[trigger] models()[i]).product_id == product_id && degrees
                == models()[i].diagonal_fov_deg,
        !is_known(product_id) ==> degrees == PANEL_DIAGONAL_FOV_DEG,
{
    match model_for(product_id) {
        Some(m) => m.diagonal_fov_deg,
        None => PANEL_DIAGONAL_FOV_DEG,
    }
}

/// The patterns of fractions are in the order of their numbers, a quarter is the fourth part of one,
/// and raising the exponent doubles.
pub proof fn patterns_are_in_the_order_of_their_numbers(bits: u32)
    requires
        bits < ONE,
    ensures
        fraction_steps(0) == 0,
        fraction_steps(bits) < pow2(149),
        bits + 1 < ONE ==> fraction_steps(bits) < fraction_steps((bits + 1) as u32),
        bits >= 0x80_0000 && bits + 0x80_0000 < ONE ==> fraction_steps((bits + 0x80_0000) as u32) == 2
            * fraction_steps(bits),
        4 * fraction_steps(QUARTER) == pow2(149),
{
    lemma2_to64();
    let e = bits as int / 0x80_0000;
    let m = bits as int % 0x80_0000;
    if bits >= 0x80_0000 {
        lemma_pow2_pos((e - 1) as nat);
        lemma_pow2_unfold(e as nat);
        let p = pow2((e - 1) as nat) as int;
        let q = pow2(e as nat) as int;
        assert(q == 2 * p);
        assert((0x80_0000 + m) * p < 0x100_0000 * p) by (nonlinear_arith)
            requires
                0 <= m < 0x80_0000,
                p > 0,
        ;
        lemma_pow2_adds(24, (e - 1) as nat);
        if e + 23 < 149 {
            lemma_pow2_strictly_increases((e + 23) as nat, 149);
        }
        assert(e <= 126);
        assert(pow2((e + 23) as nat) == 0x100_0000 * p);
        assert((0x80_0000 + m + 1) * p == (0x80_0000 + m) * p + p) by (nonlinear_arith);
        if bits + 1 < ONE {
            let next = bits as int + 1;
            if m + 1 < 0x80_0000 {
                assert(next / 0x80_0000 == e && next % 0x80_0000 == m + 1);
            } else {
                assert(next / 0x80_0000 == e + 1 && next % 0x80_0000 == 0);
                assert(0x80_0000 * q == 0x100_0000 * p);
            }
        }
        if bits + 0x80_0000 < ONE {
            let raised = bits as int + 0x80_0000;
            assert(raised / 0x80_0000 == e + 1 && raised % 0x80_0000 == m);
            assert((0x80_0000 + m) * q == 2 * ((0x80_0000 + m) * p)) by (nonlinear_arith)
                requires
                    q == 2 * p,
            ;
        }
    } else {
        lemma_pow2_strictly_increases(23, 149);
        if bits == 0x7f_ffff {
            assert(0x80_0000int / 0x80_0000 == 1 && 0x80_0000int % 0x80_0000 == 0);
            assert(pow2(0) == 1);
        }
    }
    assert(0x3e80_0000int / 0x80_0000 == 125 && 0x3e80_0000int % 0x80_0000 == 0);
    lemma_pow2_adds(23, 124);
    lemma_pow2_adds(2, 147);
}

/// The full sphere crops nothing, and the front half crops half the picture's width: a quarter from
/// either side, and nothing above or below. A screen and a cube are no patch of a sphere.
pub proof fn the_front_half_is_half_the_sphere(projection: Projection)
    ensures
        projection.crops() is Some <==> projection == Projection::Equirect360 || projection
            == Projection::Equirect180,
        projection.crops() matches Some(b) ==> {
            &&& fraction_steps(b.top) == 0 && fraction_steps(b.bottom) == 0
            &&& fraction_steps(b.left) == fraction_steps(b.right)
            &&& projection == Projection::Equirect360 ==> fraction_steps(b.left) == 0
            &&& projection == Projection::Equirect180 ==> 2 * (fraction_steps(b.left)
                + fraction_steps(b.right)) == pow2(149)
        },
{
    patterns_are_in_the_order_of_their_numbers(0);
}

/// Crops are of use where each is at least nothing and less than the whole, and two opposite ones
/// leave at least one part in two to the 24 of it between them; crops that reach or pass each other
/// are not, and neither is one that is no number, negative, or the whole.
pub proof fn crops_must_leave_something(b: Bounds)
    ensures
        b.leaves_something() ==> {
            &&& fraction_steps(b.top) + fraction_steps(b.bottom) < pow2(149)
            &&& fraction_steps(b.left) + fraction_steps(b.right) < pow2(149)
        },
        b.top < ONE && b.bottom < ONE && b.left < ONE && b.right < ONE && fraction_steps(b.top)
            + fraction_steps(b.bottom) <= pow2(149) - pow2(125) && fraction_steps(b.left)
            + fraction_steps(b.right) <= pow2(149) - pow2(125) ==> b.leaves_something(),
        b.leaves_something() ==> {
            &&& b.top < 0x3f80_0000 || b.top == 0x8000_0000
            &&& b.bottom < 0x3f80_0000 || b.bottom == 0x8000_0000
            &&& b.left < 0x3f80_0000 || b.left == 0x8000_0000
            &&& b.right < 0x3f80_0000 || b.right == 0x8000_0000
        },
        fraction_steps(MINUS_ZERO) == 0,
{
    lemma_pow2_pos(124);
    lemma_pow2_strictly_increases(124, 125);
}

} // verus!
