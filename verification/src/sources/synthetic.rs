//! `SyntheticTileSource`: coloured test tiles generated in-process.
//!
//! Each tile gets a solid background colour derived from `(x, y)` so
//! adjacent tiles differ, a one-pixel border so seams are visible, and
//! a cross through the centre from zoom 4 on.
use crate::source::TileKey;
use crate::sources::util::{PixelBuffer, Rgba8};
use vstd::arithmetic::div_mod::{lemma_add_mod_noop, lemma_fundamental_div_mod_converse, lemma_mod_mod};
use vstd::prelude::*;

verus! {

/// Generates coloured test tiles.
pub struct SyntheticTileSource {
    tile_size: u32,
}

/// The background colour of a tile: low bits of hashed coordinates,
/// lifted into a mid-tone range.
pub open spec fn fill_colour(key: TileKey) -> Rgba8 {
    Rgba8 {
        r: (40 + (vstd::wrapping::u32_specs::wrapping_mul(key.x, 73) & 0x7f)) as u8,
        g: (40 + (vstd::wrapping::u32_specs::wrapping_mul(key.y, 151) & 0x7f)) as u8,
        b: (40 + (vstd::wrapping::u32_specs::wrapping_mul(key.x ^ key.y, 199) & 0x7f)) as u8,
        a: 255,
    }
}

/// The translucent white of the tile border.
pub open spec fn border_colour() -> Rgba8 {
    Rgba8 { r: 255, g: 255, b: 255, a: 100 }
}

/// The fainter white of the centre cross.
pub open spec fn cross_colour() -> Rgba8 {
    Rgba8 { r: 255, g: 255, b: 255, a: 60 }
}

/// The pixel at column `x`, row `y` of a `size`-pixel synthetic tile.
pub open spec fn synthetic_pixel(key: TileKey, size: int, x: int, y: int) -> Rgba8 {
    let on_border = x == 0 || y == 0 || x == size - 1 || y == size - 1;
    let on_cross = x == size / 2 || y == size / 2;
    if on_border {
        border_colour()
    } else if on_cross && key.z >= 4 {
        cross_colour()
    } else {
        fill_colour(key)
    }
}

fn channel(v: u32) -> (c: u8)
    ensures
        c == (40 + (v & 0x7f)) as u8,
{
    let low: u32 = v & 0x7f;
    assert(low <= 0x7f) by (bit_vector)
        requires
            low == v & 0x7f,
    ;
    (40 + low) as u8
}

impl Default for SyntheticTileSource {
    fn default() -> (s: Self)
        ensures
            s.spec_tile_size() == 256,
    {
        SyntheticTileSource { tile_size: 256 }
    }
}

impl SyntheticTileSource {
    pub closed spec fn spec_tile_size(&self) -> u32 {
        self.tile_size
    }

    /// A source of 256-pixel tiles.
    pub fn new() -> (s: Self)
        ensures
            s.spec_tile_size() == 256,
    {
        Self::default()
    }

    /// Override the tile edge length.
    pub fn with_tile_size(self, size: u32) -> (s: Self)
        ensures
            s.spec_tile_size() == size,
    {
        SyntheticTileSource { tile_size: size }
    }

    /// Tile edge length in pixels.
    pub fn tile_size(&self) -> (s: u32)
        ensures
            s == self.spec_tile_size(),
    {
        self.tile_size
    }

    /// Lowest zoom served.
    pub fn min_zoom(&self) -> (z: u8)
        ensures
            z == 0,
    {
        0
    }

    /// Highest zoom served.
    pub fn max_zoom(&self) -> (z: u8)
        ensures
            z == 18,
    {
        18
    }

    /// The pixels of the tile at `key`, row-major; every key yields a
    /// tile.
    pub fn tile_pixels(&self, key: TileKey) -> (buf: PixelBuffer)
        requires
            (self.spec_tile_size() as int) * (self.spec_tile_size() as int) <= usize::MAX,
        ensures
            buf.width == self.spec_tile_size(),
            buf.height == self.spec_tile_size(),
            buf.pixels@.len() == (self.spec_tile_size() as int) * (self.spec_tile_size() as int),
            forall|i: int|
                0 <= i < buf.pixels@.len() ==> #[trigger] buf.pixels@[i] == synthetic_pixel(
                    key,
                    self.spec_tile_size() as int,
                    i % (self.spec_tile_size() as int),
                    i / (self.spec_tile_size() as int),
                ),
    {
        let size = self.tile_size;
        let stride = size as usize;
        let fill = Rgba8 {
            r: channel(key.x.wrapping_mul(73)),
            g: channel(key.y.wrapping_mul(151)),
            b: channel((key.x ^ key.y).wrapping_mul(199)),
            a: 255,
        };
        let border = Rgba8 { r: 255, g: 255, b: 255, a: 100 };
        let cross = Rgba8 { r: 255, g: 255, b: 255, a: 60 };
        let ghost n = stride as int;
        let mut pixels: Vec<Rgba8> = Vec::new();
        let mut y: usize = 0;
        while y < stride
            invariant
                n == stride,
                n == size,
                n * n <= usize::MAX,
                fill == fill_colour(key),
                border == border_colour(),
                cross == cross_colour(),
                y <= stride,
                pixels@.len() == y * n,
                forall|i: int|
                    0 <= i < pixels@.len() ==> #[trigger] pixels@[i] == synthetic_pixel(
                        key,
                        n,
                        i % n,
                        i / n,
                    ),
            decreases stride - y,
        {
            let mut x: usize = 0;
            while x < stride
                invariant
                    n == stride,
                    n == size,
                    fill == fill_colour(key),
                    border == border_colour(),
                    cross == cross_colour(),
                    y < stride,
                    x <= stride,
                    pixels@.len() == y * n + x,
                    forall|i: int|
                        0 <= i < pixels@.len() ==> #[trigger] pixels@[i] == synthetic_pixel(
                            key,
                            n,
                            i % n,
                            i / n,
                        ),
                decreases stride - x,
            {
                proof {
                    lemma_fundamental_div_mod_converse(y * n + x, n, y as int, x as int);
                }
                let on_border = x == 0 || y == 0 || x == stride - 1 || y == stride - 1;
                let on_cross = (x == stride / 2) || (y == stride / 2);
                let p = if on_border {
                    border
                } else if on_cross && key.z >= 4 {
                    cross
                } else {
                    fill
                };
                pixels.push(p);
                x = x + 1;
            }
            assert(y * n + n == (y + 1) * n) by (nonlinear_arith);
            y = y + 1;
        }
        PixelBuffer { width: size, height: size, pixels }
    }
}

/// The column east of column `x` at zoom `z`, wrapping across the
/// antimeridian.
pub open spec fn east_column(x: u32, z: u8) -> u32 {
    if x + 1 == vstd::arithmetic::power2::pow2(z as nat) {
        0
    } else {
        (x + 1) as u32
    }
}

/// Stepping a factor by one changes the low seven bits of its wrapped
/// product with `c`, when `c` itself has low bits set.
proof fn lemma_step_changes_low_bits(x: u32, c: u32)
    requires
        x < u32::MAX,
        c & 0x7f != 0,
    ensures
        vstd::wrapping::u32_specs::wrapping_mul(x, c) & 0x7f != vstd::wrapping::u32_specs::wrapping_mul(
            (x + 1) as u32,
            c,
        ) & 0x7f,
{
    let m: int = 0x1_0000_0000;
    let p: int = x as int * c as int;
    let a = vstd::wrapping::u32_specs::wrapping_mul(x, c);
    let b = vstd::wrapping::u32_specs::wrapping_mul((x + 1) as u32, c);
    assert((x as int + 1) * c as int == p + c) by (nonlinear_arith)
        requires
            p == x as int * c as int,
    ;
    assert(a as int == p % m);
    assert(b as int == (p + c) % m);
    lemma_add_mod_noop(p, c as int, m);
    assert(b as int == (a as int + c as int) % m);
    let s: int = a as int + c as int;
    if s < m {
        assert(b as int == s);
        assert(a & 0x7f != b & 0x7f) by (bit_vector)
            requires
                a + c == b,
                c & 0x7f != 0,
        ;
    } else {
        assert(s % m == s - m) by {
            lemma_fundamental_div_mod_converse(s, m, 1, s - m);
        }
        assert(b as int == s - m);
        assert(a & 0x7f != b & 0x7f) by (bit_vector)
            requires
                a + c == b + 0x1_0000_0000,
                c & 0x7f != 0,
        ;
    }
}

/// The wrapped product of two odd factors has low bits set.
proof fn lemma_odd_product_low_bits(x: u32, c: u32)
    requires
        x % 2 == 1,
        c % 2 == 1,
    ensures
        vstd::wrapping::u32_specs::wrapping_mul(x, c) & 0x7f != 0,
{
    let p: int = x as int * c as int;
    let a = vstd::wrapping::u32_specs::wrapping_mul(x, c);
    let kx: int = x as int / 2;
    let kc: int = c as int / 2;
    assert(p == 2 * (2 * kx * kc + kx + kc) + 1) by (nonlinear_arith)
        requires
            x as int == 2 * kx + 1,
            c as int == 2 * kc + 1,
            p == x as int * c as int,
    ;
    lemma_fundamental_div_mod_converse(p, 2, 2 * kx * kc + kx + kc, 1);
    lemma_mod_mod(p, 2, 0x8000_0000);
    assert(a % 2 == 1);
    assert(a & 0x7f != 0) by (bit_vector)
        requires
            a % 2 == 1,
    ;
}

/// Neighbouring tiles get different background colours, so tile seams
/// stay visible: the tile east of any tile (across the antimeridian
/// too) differs in red, the tile south of it in green.
pub proof fn law_neighbouring_tiles_differ(key: TileKey)
    requires
        1 <= key.z <= 32,
        key.x < vstd::arithmetic::power2::pow2(key.z as nat),
    ensures
        fill_colour(key).r != fill_colour(TileKey { x: east_column(key.x, key.z), ..key }).r,
        key.y + 1 < vstd::arithmetic::power2::pow2(key.z as nat) ==> fill_colour(key).g
            != fill_colour(TileKey { y: (key.y + 1) as u32, ..key }).g,
{
    let n = vstd::arithmetic::power2::pow2(key.z as nat);
    vstd::arithmetic::power2::lemma_pow2_unfold(key.z as nat);
    vstd::arithmetic::power2::lemma2_to64();
    if key.z < 32 {
        vstd::arithmetic::power2::lemma_pow2_strictly_increases(key.z as nat, 32);
    }
    assert(n <= 0x1_0000_0000);
    let a = vstd::wrapping::u32_specs::wrapping_mul(key.x, 73);
    assert(a & 0x7f <= 0x7f) by (bit_vector);
    if key.x + 1 == n {
        assert(key.x % 2 == 1);
        lemma_odd_product_low_bits(key.x, 73);
        assert(vstd::wrapping::u32_specs::wrapping_mul(0, 73) == 0);
        assert(0u32 & 0x7f == 0) by (bit_vector);
    } else {
        assert(73u32 & 0x7f != 0) by (bit_vector);
        lemma_step_changes_low_bits(key.x, 73);
    }
    let e = vstd::wrapping::u32_specs::wrapping_mul(east_column(key.x, key.z), 73);
    assert(e & 0x7f <= 0x7f) by (bit_vector);
    if key.y + 1 < n {
        assert(151u32 & 0x7f != 0) by (bit_vector);
        lemma_step_changes_low_bits(key.y, 151);
        let g0 = vstd::wrapping::u32_specs::wrapping_mul(key.y, 151);
        let g1 = vstd::wrapping::u32_specs::wrapping_mul((key.y + 1) as u32, 151);
        assert(g0 & 0x7f <= 0x7f) by (bit_vector);
        assert(g1 & 0x7f <= 0x7f) by (bit_vector);
    }
}

} // verus!
