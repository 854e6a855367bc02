//! Bulk cache warming: which tiles cover a bounding box across a zoom
//! range, and what happened to each of them.
//!
//! The Web Mercator projection of the box corners happens with the
//! caller; from the integer tile indices under the corners this module
//! derives the clamped tile ranges and enumerates the keys.
use crate::cache::{cache_error_message_ok, CacheError};
use crate::source::TileKey;
use crate::sources::osm::OSM_TILE_URL;
use crate::text::{append_str, decimal, decimal_string, string_of};
use vstd::arithmetic::div_mod::lemma_fundamental_div_mod_converse;
use vstd::prelude::*;

verus! {

/// Maximum zoom fetched unless the configuration raises it.
pub const MAX_BULK_FETCH_ZOOM: u8 = 16;

/// An inclusive rectangle of tiles at one zoom level.
#[derive(Clone, Copy, Debug, PartialEq, Eq, Structural)]
pub struct TileRange {
    pub z: u8,
    pub x_min: u32,
    pub x_max: u32,
    pub y_min: u32,
    pub y_max: u32,
}

/// The largest tile index at `zoom`, narrowed to `u32` the way
/// `((1u64 << zoom) - 1) as u32` narrows it.
pub open spec fn max_tile_index(zoom: u8) -> u32 {
    if zoom >= 32 {
        u32::MAX
    } else {
        (vstd::arithmetic::power2::pow2(zoom as nat) - 1) as u32
    }
}

/// Clamp one axis: the smaller and larger of the two corner indices,
/// each raised to at least 0, narrowed to `u32`, capped at `max_tile`.
pub open spec fn clamp_axis(a: i64, b: i64, max_tile: u32) -> (u32, u32) {
    let lo: int = if a < b { a as int } else { b as int };
    let hi: int = if a < b { b as int } else { a as int };
    let lo0: int = if lo < 0 { 0 } else { lo };
    let hi0: int = if hi < 0 { 0 } else { hi };
    let lo32 = lo0 as u32;
    let hi32 = hi0 as u32;
    (if lo32 < max_tile { lo32 } else { max_tile }, if hi32 < max_tile { hi32 } else { max_tile })
}

fn clamp_axis_exec(a: i64, b: i64, max_tile: u32) -> (r: (u32, u32))
    ensures
        r == clamp_axis(a, b, max_tile),
{
    let lo: i64 = if a < b { a } else { b };
    let hi: i64 = if a < b { b } else { a };
    let lo0: i64 = if lo < 0 { 0 } else { lo };
    let hi0: i64 = if hi < 0 { 0 } else { hi };
    let lo32: u32 = #[verifier::truncate] (lo0 as u32);
    let hi32: u32 = #[verifier::truncate] (hi0 as u32);
    (if lo32 < max_tile { lo32 } else { max_tile }, if hi32 < max_tile { hi32 } else { max_tile })
}

/// The inclusive tile range covering a bounding box at `zoom`, from
/// the floored tile indices of its corners: `fx0`/`fx1` are the x
/// indices of the west and east edges, `fy0`/`fy1` the y indices of
/// the south and north edges.
pub fn tile_range_from_corners(fx0: i64, fy0: i64, fx1: i64, fy1: i64, zoom: u8) -> (r: TileRange)
    requires
        zoom < 64,
    ensures
        r.z == zoom,
        (r.x_min, r.x_max) == clamp_axis(fx0, fx1, max_tile_index(zoom)),
        (r.y_min, r.y_max) == clamp_axis(fy0, fy1, max_tile_index(zoom)),
{
    let max_tile: u32 = if zoom >= 32 {
        u32::MAX
    } else {
        let p: u64 = 1u64 << (zoom as u64);
        proof {
            vstd::bits::lemma_u64_pow2_no_overflow(zoom as nat);
            vstd::bits::lemma_u64_shl_is_mul(1, zoom as u64);
            vstd::arithmetic::power2::lemma_pow2_pos(zoom as nat);
            vstd::arithmetic::power2::lemma_pow2_strictly_increases(zoom as nat, 32);
            vstd::arithmetic::power2::lemma2_to64();
        }
        (p - 1) as u32
    };
    let (x_min, x_max) = clamp_axis_exec(fx0, fx1, max_tile);
    let (y_min, y_max) = clamp_axis_exec(fy0, fy1, max_tile);
    TileRange { z: zoom, x_min, x_max, y_min, y_max }
}

/// Number of values in the inclusive range `lo ..= hi`.
pub open spec fn span(lo: u32, hi: u32) -> int {
    if hi < lo {
        0
    } else {
        hi - lo + 1
    }
}

/// The keys of one range in (x asc, y asc) order.
pub open spec fn range_keys(r: TileRange) -> Seq<TileKey> {
    let ny = span(r.y_min, r.y_max);
    Seq::new(
        (span(r.x_min, r.x_max) * ny) as nat,
        |k: int| TileKey { x: (r.x_min + k / ny) as u32, y: (r.y_min + k % ny) as u32, z: r.z },
    )
}

/// The keys of every range, range after range.
pub open spec fn ranges_keys(ranges: Seq<TileRange>) -> Seq<TileKey>
    decreases ranges.len(),
{
    if ranges.len() == 0 {
        Seq::empty()
    } else {
        ranges_keys(ranges.drop_last()) + range_keys(ranges.last())
    }
}

/// Append the keys of `r` to `out`.
fn push_range_keys(out: &mut Vec<TileKey>, r: TileRange)
    ensures
        final(out)@ == old(out)@ + range_keys(r),
{
    let ghost base = out@;
    let ghost ny = span(r.y_min, r.y_max);
    let ghost nx = span(r.x_min, r.x_max);
    assert(nx >= 0 && ny >= 0);
    if r.x_max < r.x_min || r.y_max < r.y_min {
        assert(nx * ny == 0) by (nonlinear_arith)
            requires
                nx == 0 || ny == 0,
        ;
        assert(range_keys(r) =~= Seq::<TileKey>::empty());
        assert(out@ =~= base + range_keys(r));
        return;
    }
    let nx_e: u64 = (r.x_max - r.x_min) as u64 + 1;
    let ny_e: u64 = (r.y_max - r.y_min) as u64 + 1;
    let mut i: u64 = 0;
    while i < nx_e
        invariant
            r.x_min <= r.x_max,
            r.y_min <= r.y_max,
            nx_e == nx,
            ny_e == ny,
            ny == span(r.y_min, r.y_max),
            nx == span(r.x_min, r.x_max),
            ny > 0,
            i <= nx,
            out@.len() == base.len() + i * ny,
            forall|t: int| 0 <= t < base.len() ==> #[trigger] out@[t] == base[t],
            forall|k: int|
                0 <= k < i * ny ==> #[trigger] out@[base.len() + k] == range_keys(r)[k],
        decreases nx - i,
    {
        let mut j: u64 = 0;
        while j < ny_e
            invariant
                r.x_min <= r.x_max,
                r.y_min <= r.y_max,
                nx_e == nx,
                ny_e == ny,
                ny == span(r.y_min, r.y_max),
                nx == span(r.x_min, r.x_max),
                ny > 0,
                i < nx,
                j <= ny,
                out@.len() == base.len() + i * ny + j,
                forall|t: int| 0 <= t < base.len() ==> #[trigger] out@[t] == base[t],
                forall|k: int|
                    0 <= k < i * ny + j ==> #[trigger] out@[base.len() + k] == range_keys(r)[k],
            decreases ny - j,
        {
            let ghost k = i * ny + j;
            proof {
                lemma_fundamental_div_mod_converse(k, ny, i as int, j as int);
                assert(k < nx * ny) by (nonlinear_arith)
                    requires
                        k == i * ny + j,
                        i < nx,
                        j < ny,
                ;
            }
            out.push(TileKey { x: r.x_min + i as u32, y: r.y_min + j as u32, z: r.z });
            j = j + 1;
        }
        assert(i * ny + ny == (i + 1) * ny) by (nonlinear_arith);
        i = i + 1;
    }
    assert(out@.len() == base.len() + range_keys(r).len());
    assert forall|t: int| 0 <= t < out@.len() implies #[trigger] out@[t] == (base + range_keys(r))[t] by {
        if t >= base.len() {
            let k = t - base.len();
            assert(out@[base.len() + k] == range_keys(r)[k]);
        }
    }
    assert(out@ =~= base + range_keys(r));
}

/// Every tile key covering the given per-zoom ranges, range after
/// range, each in (x asc, y asc) order.
pub fn keys_for_ranges(ranges: &Vec<TileRange>) -> (keys: Vec<TileKey>)
    ensures
        keys@ == ranges_keys(ranges@),
{
    let mut out: Vec<TileKey> = Vec::new();
    let mut i: usize = 0;
    while i < ranges.len()
        invariant
            i <= ranges@.len(),
            out@ == ranges_keys(ranges@.take(i as int)),
        decreases ranges@.len() - i,
    {
        push_range_keys(&mut out, ranges[i]);
        assert(ranges@.take(i + 1).drop_last() =~= ranges@.take(i as int));
        i = i + 1;
    }
    assert(ranges@.take(ranges@.len() as int) =~= ranges@);
    out
}

/// A clamped axis never reaches past the last tile, and keeps its ends
/// in order whenever the corner indices fit in `u32`.
pub proof fn law_clamped_axis_in_world(a: i64, b: i64, max_tile: u32)
    ensures
        clamp_axis(a, b, max_tile).0 <= max_tile,
        clamp_axis(a, b, max_tile).1 <= max_tile,
        (a <= u32::MAX && b <= u32::MAX) ==> clamp_axis(a, b, max_tile).0 <= clamp_axis(
            a,
            b,
            max_tile,
        ).1,
{
}

/// Every key of a range lies in its rectangle, at its zoom.
pub proof fn law_range_keys_in_rectangle(r: TileRange, k: int)
    requires
        0 <= k < range_keys(r).len(),
    ensures
        r.x_min <= range_keys(r)[k].x <= r.x_max,
        r.y_min <= range_keys(r)[k].y <= r.y_max,
        range_keys(r)[k].z == r.z,
{
    let ny = span(r.y_min, r.y_max);
    let nx = span(r.x_min, r.x_max);
    assert(nx > 0 && ny > 0) by (nonlinear_arith)
        requires
            0 <= k < nx * ny,
            nx >= 0,
            ny >= 0,
    ;
    vstd::arithmetic::div_mod::lemma_fundamental_div_mod(k, ny);
    assert(0 <= k / ny < nx) by (nonlinear_arith)
        requires
            k == ny * (k / ny) + k % ny,
            0 <= k % ny < ny,
            0 <= k < nx * ny,
            ny > 0,
    ;
}

/// Every tile of a range's rectangle is among its keys.
pub proof fn law_range_keys_cover_rectangle(r: TileRange, x: u32, y: u32)
    requires
        r.x_min <= x <= r.x_max,
        r.y_min <= y <= r.y_max,
    ensures
        exists|k: int| 0 <= k < range_keys(r).len() && range_keys(r)[k] == (TileKey { x, y, z: r.z }),
{
    let ny = span(r.y_min, r.y_max);
    let nx = span(r.x_min, r.x_max);
    let k = (x - r.x_min) * ny + (y - r.y_min);
    lemma_fundamental_div_mod_converse(k, ny, (x - r.x_min) as int, (y - r.y_min) as int);
    assert(k < nx * ny) by (nonlinear_arith)
        requires
            k == (x - r.x_min) * ny + (y - r.y_min),
            x <= r.x_max,
            y <= r.y_max,
            nx == r.x_max - r.x_min + 1,
            ny == r.y_max - r.y_min + 1,
            r.x_min <= x,
            r.y_min <= y,
    ;
    assert(range_keys(r)[k] == (TileKey { x, y, z: r.z }));
}

/// Two positions of one range's keys hold different tiles.
proof fn lemma_range_keys_distinct(r: TileRange, a: int, b: int)
    requires
        0 <= a < b < range_keys(r).len(),
    ensures
        range_keys(r)[a] != range_keys(r)[b],
{
    let ny = span(r.y_min, r.y_max);
    let nx = span(r.x_min, r.x_max);
    law_range_keys_in_rectangle(r, a);
    law_range_keys_in_rectangle(r, b);
    assert(nx > 0 && ny > 0) by (nonlinear_arith)
        requires
            0 <= b < nx * ny,
            nx >= 0,
            ny >= 0,
    ;
    vstd::arithmetic::div_mod::lemma_fundamental_div_mod(a, ny);
    vstd::arithmetic::div_mod::lemma_fundamental_div_mod(b, ny);
    assert(0 <= a / ny < nx && 0 <= b / ny < nx) by (nonlinear_arith)
        requires
            a == ny * (a / ny) + a % ny,
            b == ny * (b / ny) + b % ny,
            0 <= a % ny < ny,
            0 <= b % ny < ny,
            0 <= a < nx * ny,
            0 <= b < nx * ny,
            ny > 0,
    ;
    assert(range_keys(r)[a].x == r.x_min + a / ny);
    assert(range_keys(r)[b].x == r.x_min + b / ny);
    assert(range_keys(r)[a].y == r.y_min + a % ny);
    assert(range_keys(r)[b].y == r.y_min + b % ny);
    if a / ny == b / ny && a % ny == b % ny {
        assert(a == b);
    }
}

/// Every key of the listed ranges is at the zoom of one of them.
proof fn lemma_ranges_keys_zoom(ranges: Seq<TileRange>, k: int)
    requires
        0 <= k < ranges_keys(ranges).len(),
    ensures
        exists|i: int| 0 <= i < ranges.len() && ranges_keys(ranges)[k].z == #[trigger] ranges[i].z,
    decreases ranges.len(),
{
    let pre = ranges_keys(ranges.drop_last());
    if k < pre.len() {
        lemma_ranges_keys_zoom(ranges.drop_last(), k);
        let i = choose|i: int|
            0 <= i < ranges.drop_last().len() && pre[k].z == #[trigger] ranges.drop_last()[i].z;
        assert(ranges.drop_last()[i] == ranges[i]);
    } else {
        law_range_keys_in_rectangle(ranges.last(), k - pre.len());
        assert(ranges[ranges.len() - 1] == ranges.last());
    }
}

/// A bulk prefetch never visits a tile twice: when every range is at a
/// zoom of its own, all their keys differ.
pub proof fn law_region_keys_are_distinct(ranges: Seq<TileRange>, a: int, b: int)
    requires
        forall|i: int, j: int| 0 <= i < j < ranges.len() ==> #[trigger] ranges[i].z != #[trigger] ranges[j].z,
        0 <= a < b < ranges_keys(ranges).len(),
    ensures
        ranges_keys(ranges)[a] != ranges_keys(ranges)[b],
    decreases ranges.len(),
{
    let init = ranges.drop_last();
    let pre = ranges_keys(init);
    let last = range_keys(ranges.last());
    assert(ranges_keys(ranges) == pre + last);
    if b < pre.len() {
        assert forall|i: int, j: int| 0 <= i < j < init.len() implies #[trigger] init[i].z
            != #[trigger] init[j].z by {
            assert(init[i] == ranges[i] && init[j] == ranges[j]);
            assert(ranges[i].z != ranges[j].z);
        }
        law_region_keys_are_distinct(init, a, b);
    } else if a >= pre.len() {
        lemma_range_keys_distinct(ranges.last(), a - pre.len(), b - pre.len());
    } else {
        lemma_ranges_keys_zoom(init, a);
        let i = choose|i: int| 0 <= i < init.len() && pre[a].z == #[trigger] init[i].z;
        assert(init[i] == ranges[i]);
        assert(ranges[i].z != ranges[ranges.len() - 1].z);
        law_range_keys_in_rectangle(ranges.last(), b - pre.len());
    }
}

/// Outcome of a single tile fetch, handed to the progress callback.
#[derive(Debug)]
pub enum FetchOutcome {
    /// Tile was already in the cache; no network request issued.
    Cached,
    /// Tile was downloaded and written to the cache.
    Fetched { bytes: usize },
    /// Fetch failed; tile not in cache.
    Failed(String),
}

/// Configuration for a region prefetch.
pub struct RegionConfig {
    /// URL template with `{z}`, `{x}`, `{y}` placeholders.
    pub url_template: String,
    /// HTTP User-Agent.
    pub user_agent: String,
    /// Sleep between requests, milliseconds.
    pub sleep_ms: u64,
    /// Refuse to fetch past this zoom.
    pub max_zoom: u8,
}

impl Default for RegionConfig {
    fn default() -> (c: Self)
        ensures
            c.url_template@ == OSM_TILE_URL@,
            c.user_agent@ == "slint-mapping/0.1 (https://github.com/slint-rs/slint-mapping)"@,
            c.sleep_ms == 300,
            c.max_zoom == MAX_BULK_FETCH_ZOOM,
    {
        RegionConfig {
            url_template: string_of(OSM_TILE_URL),
            user_agent: string_of("slint-mapping/0.1 (https://github.com/slint-rs/slint-mapping)"),
            sleep_ms: 300,
            max_zoom: MAX_BULK_FETCH_ZOOM,
        }
    }
}

/// The refusal for a zoom past the configured cap.
pub open spec fn zoom_cap_message(zoom_max: u8, cap: u8) -> Seq<char> {
    "zoom_max "@ + decimal(zoom_max as nat) + " exceeds the configured cap ("@ + decimal(cap as nat)
        + "); raise RegionConfig::max_zoom if you've cleared bulk download with the provider"@
}

/// Refuse a prefetch whose top zoom exceeds the configured cap.
pub fn check_zoom_cap(zoom_max: u8, config: &RegionConfig) -> (r: Result<(), String>)
    ensures
        r is Err <==> zoom_max > config.max_zoom,
        r matches Err(m) ==> m@ == zoom_cap_message(zoom_max, config.max_zoom),
{
    if zoom_max > config.max_zoom {
        let mut m = string_of("zoom_max ");
        append_str(&mut m, decimal_string(zoom_max as u64).as_str());
        append_str(&mut m, " exceeds the configured cap (");
        append_str(&mut m, decimal_string(config.max_zoom as u64).as_str());
        append_str(
            &mut m,
            "); raise RegionConfig::max_zoom if you've cleared bulk download with the provider",
        );
        Err(m)
    } else {
        Ok(())
    }
}

/// The outcome for a tile whose `len` downloaded bytes the cache
/// accepted or refused.
pub open spec fn spec_stored_outcome(len: usize, store: Result<(), CacheError>, out: FetchOutcome) -> bool {
    match store {
        Ok(()) => out == FetchOutcome::Fetched { bytes: len },
        Err(ce) => out matches FetchOutcome::Failed(m) && m@.len() >= "cache put: "@.len()
            && m@.subrange(0, "cache put: "@.len() as int) == "cache put: "@
            && cache_error_message_ok(ce, m@.skip("cache put: "@.len() as int)),
    }
}

/// Classify a downloaded tile by the result of writing it to the cache.
pub fn stored_outcome(len: usize, store: Result<(), CacheError>) -> (out: FetchOutcome)
    ensures
        spec_stored_outcome(len, store, out),
{
    match store {
        Ok(()) => FetchOutcome::Fetched { bytes: len },
        Err(ce) => {
            let mut m = string_of("cache put: ");
            let ghost prefix = m@;
            let text = ce.message();
            append_str(&mut m, text.as_str());
            assert(m@.subrange(0, prefix.len() as int) =~= prefix);
            assert(m@.skip(prefix.len() as int) =~= text@);
            FetchOutcome::Failed(m)
        },
    }
}

/// Whether the prefetch pauses after this tile (only after a download).
pub fn pauses_after(outcome: &FetchOutcome) -> (b: bool)
    ensures
        b == (*outcome is Fetched),
{
    match outcome {
        FetchOutcome::Fetched { .. } => true,
        _ => false,
    }
}

} // verus!
