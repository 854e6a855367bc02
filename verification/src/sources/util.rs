//! Shared helpers for HTTP-style tile sources: URL templating and
//! PNG decoding into an RGBA pixel buffer.
use crate::source::TileKey;
use crate::text::{decimal, decimal_string, replace_all, replace_all_str};
use vstd::prelude::*;

verus! {

/// One RGBA pixel, 8 bits per channel.
#[derive(Clone, Copy, Debug, PartialEq, Eq, Structural)]
pub struct Rgba8 {
    pub r: u8,
    pub g: u8,
    pub b: u8,
    pub a: u8,
}

/// An owned `width × height` RGBA image, row-major.
#[derive(Debug)]
pub struct PixelBuffer {
    pub width: u32,
    pub height: u32,
    pub pixels: Vec<Rgba8>,
}

/// `template` with `{z}`, then `{x}`, then `{y}` substituted by the
/// decimal coordinates of `key`.
pub open spec fn spec_format_url(template: Seq<char>, key: TileKey) -> Seq<char> {
    replace_all(
        replace_all(
            replace_all(template, "{z}"@, decimal(key.z as nat)),
            "{x}"@,
            decimal(key.x as nat),
        ),
        "{y}"@,
        decimal(key.y as nat),
    )
}

/// Substitute `{z}` / `{x}` / `{y}` placeholders in a slippy-map URL
/// template against a tile key.
pub fn format_url(template: &str, key: TileKey) -> (url: String)
    ensures
        url@ == spec_format_url(template@, key),
{
    proof {
        reveal_strlit("{z}");
        reveal_strlit("{x}");
        reveal_strlit("{y}");
    }
    let z = decimal_string(key.z as u64);
    let x = decimal_string(key.x as u64);
    let y = decimal_string(key.y as u64);
    let a = replace_all_str(template, "{z}", z.as_str());
    let b = replace_all_str(a.as_str(), "{x}", x.as_str());
    replace_all_str(b.as_str(), "{y}", y.as_str())
}

/// What `image::load_from_memory(bytes)` followed by `to_rgba8()`
/// gives: width, height and the raw RGBA bytes, or `None` when the
/// bytes do not decode.
pub uninterp spec fn png_rgba(bytes: Seq<u8>) -> Option<(u32, u32, Seq<u8>)>;

/// Calls `image::load_from_memory` and converts the image with
/// `DynamicImage::to_rgba8`. Claimed: the outcome is the named function
/// `png_rgba` of the bytes, and a decoded buffer holds at least four
/// bytes per pixel (`ImageBuffer` checks this whenever one is built).
#[verifier::external_body]
fn decode_rgba(bytes: &[u8]) -> (r: Option<(u32, u32, Vec<u8>)>)
    ensures
        match r {
            None => png_rgba(bytes@) is None,
            Some((w, h, data)) => png_rgba(bytes@) == Some((w, h, data@)) && 4 * (w as int) * (
            h as int) <= data@.len(),
        },
{
    match image::load_from_memory(bytes) {
        Ok(img) => {
            let rgba = img.to_rgba8();
            let (w, h) = rgba.dimensions();
            Some((w, h, rgba.into_raw()))
        },
        Err(_) => None,
    }
}

/// Pixel `i` of an RGBA byte buffer: the four bytes at `4 * i`, or a
/// transparent black pixel where the buffer has run out.
pub open spec fn pixel_at(data: Seq<u8>, i: int) -> Rgba8 {
    if 4 * i + 4 <= data.len() {
        Rgba8 { r: data[4 * i], g: data[4 * i + 1], b: data[4 * i + 2], a: data[4 * i + 3] }
    } else {
        Rgba8 { r: 0, g: 0, b: 0, a: 0 }
    }
}

/// Build a `width × height` pixel buffer from raw RGBA bytes, four
/// bytes per pixel; pixels past the end of `data` stay transparent
/// black.
pub fn pixels_from_rgba(width: u32, height: u32, data: &Vec<u8>) -> (buf: PixelBuffer)
    requires
        (width as int) * (height as int) <= usize::MAX,
    ensures
        buf.width == width,
        buf.height == height,
        buf.pixels@.len() == (width as int) * (height as int),
        forall|i: int|
            0 <= i < buf.pixels@.len() ==> #[trigger] buf.pixels@[i] == pixel_at(data@, i),
{
    let n: usize = (width as usize) * (height as usize);
    let len: usize = data.len();
    let avail: usize = len / 4;
    let mut pixels: Vec<Rgba8> = Vec::new();
    let mut i: usize = 0;
    while i < n
        invariant
            n == (width as int) * (height as int),
            len == data@.len(),
            avail == len / 4,
            i <= n,
            pixels@.len() == i,
            forall|j: int| 0 <= j < i ==> #[trigger] pixels@[j] == pixel_at(data@, j),
        decreases n - i,
    {
        if i < avail {
            assert(4 * i + 4 <= len) by (nonlinear_arith)
                requires
                    i < avail,
                    avail == len / 4,
            ;
            pixels.push(
                Rgba8 { r: data[4 * i], g: data[4 * i + 1], b: data[4 * i + 2], a: data[4 * i + 3] },
            );
        } else {
            assert(!(4 * i + 4 <= len)) by (nonlinear_arith)
                requires
                    i >= avail,
                    avail == len / 4,
            ;
            pixels.push(Rgba8 { r: 0, g: 0, b: 0, a: 0 });
        }
        i = i + 1;
    }
    PixelBuffer { width, height, pixels }
}

/// `buf` is the decoding of `bytes`: `None` exactly when they do not
/// decode, else the decoded size with every pixel read from the RGBA
/// bytes.
pub open spec fn png_decodes_to(bytes: Seq<u8>, buf: Option<PixelBuffer>) -> bool {
    match buf {
        None => png_rgba(bytes) is None,
        Some(b) => match png_rgba(bytes) {
            Some((w, h, data)) => {
                &&& b.width == w
                &&& b.height == h
                &&& b.pixels@.len() == (w as int) * (h as int)
                &&& forall|i: int|
                    0 <= i < b.pixels@.len() ==> #[trigger] b.pixels@[i] == pixel_at(data, i)
            },
            None => false,
        },
    }
}

/// Decode a PNG byte buffer into an owned pixel buffer. Returns `None`
/// on any decode error (malformed PNG, truncated data).
pub fn decode_png_to_buffer(bytes: &[u8]) -> (buf: Option<PixelBuffer>)
    ensures
        png_decodes_to(bytes@, buf),
{
    match decode_rgba(bytes) {
        None => None,
        Some((w, h, data)) => {
            let len = data.len();
            assert((w as int) * (h as int) <= usize::MAX) by (nonlinear_arith)
                requires
                    4 * (w as int) * (h as int) <= len,
                    len <= usize::MAX,
            ;
            Some(pixels_from_rgba(w, h, &data))
        },
    }
}

} // verus!
