//! On-disk tile storage layout and its errors.
//!
//! `FileTileCache` stores tiles in a slippy-map directory tree
//! (`{root}/{z}/{x}/{y}.{ext}`); reading and writing the files is the
//! caller's I/O, this module decides where each tile lives.
use crate::source::TileKey;
use crate::text::{
    append_str, decimal, decimal_string, is_digit, lemma_decimal_digits,
    lemma_decimal_injective, lemma_split_digits, push_char, string_of,
};
use vstd::prelude::*;

verus! {

#[verifier::external_type_specification]
#[verifier::external_body]
pub struct ExIoError(std::io::Error);

/// Error returned when a tile cannot be stored.
#[derive(Debug)]
pub enum CacheError {
    Io(std::io::Error),
    Other(String),
}

/// Formats `std::io::Error` with its `Display` impl. Nothing is claimed
/// of the text: it comes from the operating system's error
/// descriptions.
#[verifier::external_body]
fn io_error_text(e: &std::io::Error) -> String {
    format!("{e}")
}

/// `m` is the message `Display` shows for `e`: exact for `Other`; for
/// `Io` the fixed prefix followed by the system's description.
pub open spec fn cache_error_message_ok(e: CacheError, m: Seq<char>) -> bool {
    match e {
        CacheError::Other(s) => m == "tile cache error: "@ + s@,
        CacheError::Io(_) => m.len() >= "tile cache I/O error: "@.len() && m.subrange(
            0,
            "tile cache I/O error: "@.len() as int,
        ) == "tile cache I/O error: "@,
    }
}

impl CacheError {
    /// The human-readable description of the error.
    pub fn message(&self) -> (m: String)
        ensures
            cache_error_message_ok(*self, m@),
    {
        match self {
            CacheError::Io(e) => {
                let mut m = string_of("tile cache I/O error: ");
                let ghost prefix = m@;
                append_str(&mut m, io_error_text(e).as_str());
                assert(m@.subrange(0, prefix.len() as int) =~= prefix);
                m
            },
            CacheError::Other(s) => {
                let mut m = string_of("tile cache error: ");
                append_str(&mut m, s.as_str());
                m
            },
        }
    }
}

impl From<std::io::Error> for CacheError {
    fn from(e: std::io::Error) -> (r: Self)
        ensures
            r == CacheError::Io(e),
    {
        CacheError::Io(e)
    }
}

impl vstd::std_specs::convert::FromSpecImpl<std::io::Error> for CacheError {
    open spec fn obeys_from_spec() -> bool {
        true
    }

    open spec fn from_spec(e: std::io::Error) -> Self {
        CacheError::Io(e)
    }
}

/// `PathBuf::push` of a relative component on a Unix path: a separator
/// goes between the two unless `base` is empty or already ends in one.
pub open spec fn path_join(base: Seq<char>, comp: Seq<char>) -> Seq<char> {
    if base.len() == 0 {
        comp
    } else if base.last() == '/' {
        base + comp
    } else {
        base + seq!['/'] + comp
    }
}

/// `{root}/{z}/{x}/{y}.{ext}` for a tile.
pub open spec fn tile_path(root: Seq<char>, ext: Seq<char>, key: TileKey) -> Seq<char> {
    path_join(
        path_join(path_join(root, decimal(key.z as nat)), decimal(key.x as nat)),
        decimal(key.y as nat) + seq!['.'] + ext,
    )
}

/// Appends `comp` to the path `base` with a separator where needed.
pub fn push_path(base: &mut String, comp: &str)
    ensures
        final(base)@ == path_join(old(base)@, comp@),
{
    let cs = crate::text::chars_of(base.as_str());
    if cs.len() > 0 && cs[cs.len() - 1] != '/' {
        push_char(base, '/');
    }
    append_str(base, comp);
    assert(final(base)@ =~= path_join(old(base)@, comp@));
}

/// The path of a tile under `root` with file extension `ext`.
pub fn build_tile_path(root: &str, ext: &str, key: TileKey) -> (p: String)
    ensures
        p@ == tile_path(root@, ext@, key),
{
    let mut p = string_of(root);
    push_path(&mut p, decimal_string(key.z as u64).as_str());
    push_path(&mut p, decimal_string(key.x as u64).as_str());
    let mut leaf = decimal_string(key.y as u64);
    push_char(&mut leaf, '.');
    append_str(&mut leaf, ext);
    push_path(&mut p, leaf.as_str());
    p
}

/// Stores tiles in a slippy-map directory tree on disk
/// (`{root}/{z}/{x}/{y}.{ext}`).
pub struct FileTileCache {
    root: String,
    extension: String,
}

impl FileTileCache {
    pub closed spec fn spec_root(&self) -> Seq<char> {
        self.root@
    }

    pub closed spec fn spec_extension(&self) -> Seq<char> {
        self.extension@
    }

    /// A cache rooted at `root`, writing `.png` files.
    pub fn new(root: &str) -> (c: Self)
        ensures
            c.spec_root() == root@,
            c.spec_extension() == "png"@,
    {
        FileTileCache { root: string_of(root), extension: string_of("png") }
    }

    /// Override the tile file extension (default `"png"`).
    pub fn with_extension(self, ext: &str) -> (c: Self)
        ensures
            c.spec_root() == self.spec_root(),
            c.spec_extension() == ext@,
    {
        FileTileCache { root: self.root, extension: string_of(ext) }
    }

    /// On-disk path for the given tile.
    pub fn path_for(&self, key: TileKey) -> (p: String)
        ensures
            p@ == tile_path(self.spec_root(), self.spec_extension(), key),
    {
        build_tile_path(self.root.as_str(), self.extension.as_str(), key)
    }

    /// Filesystem root this cache writes under.
    pub fn root(&self) -> (r: &str)
        ensures
            r@ == self.spec_root(),
    {
        self.root.as_str()
    }
}

/// The part of a tile path after the cache root: `{z}/{x}/{y}.{ext}`.
pub open spec fn tile_suffix(ext: Seq<char>, key: TileKey) -> Seq<char> {
    decimal(key.z as nat) + seq!['/'] + (decimal(key.x as nat) + seq!['/'] + (decimal(key.y as nat)
        + seq!['.'] + ext))
}

/// What a relative component is appended to when joined onto `base`.
pub open spec fn join_prefix(base: Seq<char>) -> Seq<char> {
    if base.len() == 0 || base.last() == '/' {
        base
    } else {
        base + seq!['/']
    }
}

/// A tile path is the joined root followed by `{z}/{x}/{y}.{ext}`.
proof fn lemma_tile_path_shape(root: Seq<char>, ext: Seq<char>, key: TileKey)
    ensures
        tile_path(root, ext, key) == join_prefix(root) + tile_suffix(ext, key),
{
    let dz = decimal(key.z as nat);
    let dx = decimal(key.x as nat);
    let dy = decimal(key.y as nat);
    lemma_decimal_digits(key.z as nat);
    lemma_decimal_digits(key.x as nat);
    let a = path_join(root, dz);
    assert(a =~= join_prefix(root) + dz);
    assert(a.last() == dz.last());
    assert(is_digit(dz[dz.len() - 1]));
    let b = path_join(a, dx);
    assert(b =~= a + seq!['/'] + dx);
    assert(b.last() == dx.last());
    assert(is_digit(dx[dx.len() - 1]));
    let leaf = dy + seq!['.'] + ext;
    assert(path_join(b, leaf) =~= b + seq!['/'] + leaf);
    assert(tile_path(root, ext, key) =~= join_prefix(root) + tile_suffix(ext, key));
}

/// Two different tiles of one cache never share a file: the tile path
/// determines the tile.
pub proof fn law_distinct_tiles_have_distinct_paths(root: Seq<char>, ext: Seq<char>, a: TileKey, b: TileKey)
    requires
        a != b,
    ensures
        tile_path(root, ext, a) != tile_path(root, ext, b),
{
    if tile_path(root, ext, a) == tile_path(root, ext, b) {
        lemma_tile_path_shape(root, ext, a);
        lemma_tile_path_shape(root, ext, b);
        let p = join_prefix(root);
        let sa = tile_suffix(ext, a);
        let sb = tile_suffix(ext, b);
        assert(sa =~= (p + sa).skip(p.len() as int));
        assert(sb =~= (p + sb).skip(p.len() as int));
        assert(sa == sb);
        lemma_decimal_digits(a.z as nat);
        lemma_decimal_digits(b.z as nat);
        lemma_decimal_digits(a.x as nat);
        lemma_decimal_digits(b.x as nat);
        lemma_decimal_digits(a.y as nat);
        lemma_decimal_digits(b.y as nat);
        let ra = decimal(a.x as nat) + seq!['/'] + (decimal(a.y as nat) + seq!['.'] + ext);
        let rb = decimal(b.x as nat) + seq!['/'] + (decimal(b.y as nat) + seq!['.'] + ext);
        assert(!is_digit('/'));
        assert(!is_digit('.'));
        lemma_split_digits(decimal(a.z as nat), ra, decimal(b.z as nat), rb, '/');
        lemma_split_digits(
            decimal(a.x as nat),
            decimal(a.y as nat) + seq!['.'] + ext,
            decimal(b.x as nat),
            decimal(b.y as nat) + seq!['.'] + ext,
            '/',
        );
        lemma_split_digits(decimal(a.y as nat), ext, decimal(b.y as nat), ext, '.');
        lemma_decimal_injective(a.z as nat, b.z as nat);
        lemma_decimal_injective(a.x as nat, b.x as nat);
        lemma_decimal_injective(a.y as nat, b.y as nat);
    }
}

} // verus!
