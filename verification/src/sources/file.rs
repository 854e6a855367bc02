//! `FileTileSource`: raster tiles read from a slippy-map directory tree
//! laid out on disk as `{root}/{z}/{x}/{y}.{ext}`. This module holds the
//! source's settings and where each tile lives; reading the file is the
//! caller's I/O.
use crate::cache::{build_tile_path, tile_path};
use crate::source::TileKey;
use crate::text::string_of;
use vstd::prelude::*;

verus! {

/// Reads raster tiles from a slippy-map directory tree on disk.
pub struct FileTileSource {
    root: String,
    extension: String,
    tile_size: u32,
    min_zoom: u8,
    max_zoom: u8,
}

impl FileTileSource {
    pub closed spec fn spec_root(&self) -> Seq<char> {
        self.root@
    }

    pub closed spec fn spec_extension(&self) -> Seq<char> {
        self.extension@
    }

    pub closed spec fn spec_tile_size(&self) -> u32 {
        self.tile_size
    }

    pub closed spec fn spec_min_zoom(&self) -> u8 {
        self.min_zoom
    }

    pub closed spec fn spec_max_zoom(&self) -> u8 {
        self.max_zoom
    }

    /// A source rooted at `root`: `.png` tiles of 256 pixels, zoom 0 to 22.
    pub fn new(root: &str) -> (s: Self)
        ensures
            s.spec_root() == root@,
            s.spec_extension() == "png"@,
            s.spec_tile_size() == 256,
            s.spec_min_zoom() == 0,
            s.spec_max_zoom() == 22,
    {
        FileTileSource {
            root: string_of(root),
            extension: string_of("png"),
            tile_size: 256,
            min_zoom: 0,
            max_zoom: 22,
        }
    }

    /// Override the tile file extension (default `"png"`).
    pub fn with_extension(self, ext: &str) -> (s: Self)
        ensures
            s.spec_root() == self.spec_root(),
            s.spec_extension() == ext@,
            s.spec_tile_size() == self.spec_tile_size(),
            s.spec_min_zoom() == self.spec_min_zoom(),
            s.spec_max_zoom() == self.spec_max_zoom(),
    {
        FileTileSource {
            root: self.root,
            extension: string_of(ext),
            tile_size: self.tile_size,
            min_zoom: self.min_zoom,
            max_zoom: self.max_zoom,
        }
    }

    /// Override the tile edge length (default 256).
    pub fn with_tile_size(self, size: u32) -> (s: Self)
        ensures
            s.spec_root() == self.spec_root(),
            s.spec_extension() == self.spec_extension(),
            s.spec_tile_size() == size,
            s.spec_min_zoom() == self.spec_min_zoom(),
            s.spec_max_zoom() == self.spec_max_zoom(),
    {
        FileTileSource {
            root: self.root,
            extension: self.extension,
            tile_size: size,
            min_zoom: self.min_zoom,
            max_zoom: self.max_zoom,
        }
    }

    /// Override the available zoom range.
    pub fn with_zoom_range(self, min: u8, max: u8) -> (s: Self)
        ensures
            s.spec_root() == self.spec_root(),
            s.spec_extension() == self.spec_extension(),
            s.spec_tile_size() == self.spec_tile_size(),
            s.spec_min_zoom() == min,
            s.spec_max_zoom() == max,
    {
        FileTileSource {
            root: self.root,
            extension: self.extension,
            tile_size: self.tile_size,
            min_zoom: min,
            max_zoom: max,
        }
    }

    /// The file that holds the tile at `key`.
    pub fn tile_path(&self, key: TileKey) -> (p: String)
        ensures
            p@ == tile_path(self.spec_root(), self.spec_extension(), key),
    {
        build_tile_path(self.root.as_str(), self.extension.as_str(), key)
    }

    /// Tile edge length in pixels.
    pub fn tile_size(&self) -> (s: u32)
        ensures
            s == self.spec_tile_size(),
    {
        self.tile_size
    }

    /// Lowest zoom served.
    pub fn min_zoom(&self) -> (z: u8)
        ensures
            z == self.spec_min_zoom(),
    {
        self.min_zoom
    }

    /// Highest zoom served.
    pub fn max_zoom(&self) -> (z: u8)
        ensures
            z == self.spec_max_zoom(),
    {
        self.max_zoom
    }
}

} // verus!
