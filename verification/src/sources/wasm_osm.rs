//! Bookkeeping of the browser tile source: a bounded, least-recently-used
//! memory of decoded tiles, plus the keys in flight and the keys that
//! failed. The XMLHttpRequest plumbing stays with the caller.
use crate::source::TileKey;
use crate::sources::keyset::KeySet;
use crate::sources::osm::TileRequest;
use crate::sources::util::{decode_png_to_buffer, png_decodes_to, PixelBuffer};
use vstd::prelude::*;

verus! {

#[verifier::external_type_specification]
#[verifier::external_body]
#[verifier::reject_recursive_types(K)]
#[verifier::reject_recursive_types(V)]
#[verifier::reject_recursive_types(S)]
pub struct ExLruCache<K, V, S>(lru::LruCache<K, V, S>);

#[verifier::external_type_specification]
#[verifier::external_body]
pub struct ExLruDefaultHasher(lru::DefaultHasher);

/// Cap on the in-memory tile memory: 256 tiles of 256×256 RGBA, about
/// 64 MB, enough for the viewport plus a few screens of pan-ahead.
pub const TILE_CACHE_CAPACITY: usize = 256;

/// The entries of an LRU cache of decoded tiles, least recently used
/// first, each a key `(x, y, z)` with its tile.
pub uninterp spec fn lru_entries(c: lru::LruCache<(u32, u32, u8), PixelBuffer>) -> Seq<((u32, u32, u8), PixelBuffer)>;

/// The capacity an LRU cache of decoded tiles was made with.
pub uninterp spec fn lru_capacity(c: lru::LruCache<(u32, u32, u8), PixelBuffer>) -> nat;

/// The memory key of a tile key.
pub open spec fn mem_key(k: TileKey) -> (u32, u32, u8) {
    (k.x, k.y, k.z)
}

/// No key occurs twice among the entries.
pub open spec fn keys_unique(s: Seq<((u32, u32, u8), PixelBuffer)>) -> bool {
    forall|i: int, j: int| 0 <= i < j < s.len() ==> #[trigger] s[i].0 != #[trigger] s[j].0
}

/// Whether `k` has an entry.
pub open spec fn has_entry(s: Seq<((u32, u32, u8), PixelBuffer)>, k: (u32, u32, u8)) -> bool {
    exists|i: int| 0 <= i < s.len() && #[trigger] s[i].0 == k
}

/// The position of the entry of `k`, when there is one.
pub open spec fn entry_index(s: Seq<((u32, u32, u8), PixelBuffer)>, k: (u32, u32, u8)) -> int {
    choose|i: int| 0 <= i < s.len() && #[trigger] s[i].0 == k
}

/// The entries after a hit on `k`: its entry moves to the most recently
/// used end; a miss changes nothing.
pub open spec fn lru_touched(s: Seq<((u32, u32, u8), PixelBuffer)>, k: (u32, u32, u8)) -> Seq<((u32, u32, u8), PixelBuffer)> {
    if has_entry(s, k) {
        let i = entry_index(s, k);
        s.remove(i).push(s[i])
    } else {
        s
    }
}

/// The entries after storing `v` under `k` in a cache of capacity
/// `cap`: an existing entry of `k` is replaced and becomes the most
/// recently used; a new key is appended, first evicting the least
/// recently used entry when the cache is full.
pub open spec fn lru_stored(
    s: Seq<((u32, u32, u8), PixelBuffer)>,
    k: (u32, u32, u8),
    v: PixelBuffer,
    cap: nat,
) -> Seq<((u32, u32, u8), PixelBuffer)> {
    if has_entry(s, k) {
        s.remove(entry_index(s, k)).push((k, v))
    } else if s.len() < cap {
        s.push((k, v))
    } else {
        s.drop_first().push((k, v))
    }
}

/// Calls `lru::LruCache::new`. Claimed: the cache starts empty and
/// keeps the capacity `cap` it was made with.
#[verifier::external_body]
fn lru_new(cap: usize) -> (c: lru::LruCache<(u32, u32, u8), PixelBuffer>)
    requires
        cap > 0,
    ensures
        lru_entries(c) == Seq::<((u32, u32, u8), PixelBuffer)>::empty(),
        lru_capacity(c) == cap,
{
    lru::LruCache::new(std::num::NonZeroUsize::new(cap).unwrap())
}

/// Calls `lru::LruCache::get`. Claimed: the result is the value stored
/// under `k` when there is an entry for it, and such a hit moves that
/// entry to the most recently used end; a miss changes nothing.
#[verifier::external_body]
fn lru_get<'a>(c: &'a mut lru::LruCache<(u32, u32, u8), PixelBuffer>, k: &(u32, u32, u8)) -> (r: Option<&'a PixelBuffer>)
    requires
        keys_unique(lru_entries(*old(c))),
    ensures
        r is Some <==> has_entry(lru_entries(*old(c)), *k),
        r matches Some(v) ==> *v == lru_entries(*old(c))[entry_index(lru_entries(*old(c)), *k)].1,
        lru_entries(*final(c)) == lru_touched(lru_entries(*old(c)), *k),
        lru_capacity(*final(c)) == lru_capacity(*old(c)),
{
    c.get(k)
}

/// Calls `lru::LruCache::peek`. Claimed: the result is the value stored
/// under `k` when there is an entry for it; the order is untouched.
#[verifier::external_body]
fn lru_peek<'a>(c: &'a lru::LruCache<(u32, u32, u8), PixelBuffer>, k: &(u32, u32, u8)) -> (r: Option<&'a PixelBuffer>)
    requires
        keys_unique(lru_entries(*c)),
    ensures
        r is Some <==> has_entry(lru_entries(*c), *k),
        r matches Some(v) ==> *v == lru_entries(*c)[entry_index(lru_entries(*c), *k)].1,
{
    c.peek(k)
}

/// Calls `lru::LruCache::put`. Claimed: an existing entry of `k` gets
/// the value `v`, becomes the most recently used, and its old value is
/// returned; a new key is appended as the most recently used after the
/// least recently used entry is evicted when the cache is full; the
/// capacity does not change.
#[verifier::external_body]
fn lru_put(c: &mut lru::LruCache<(u32, u32, u8), PixelBuffer>, k: (u32, u32, u8), v: PixelBuffer) -> (r: Option<PixelBuffer>)
    requires
        keys_unique(lru_entries(*old(c))),
        lru_entries(*old(c)).len() <= lru_capacity(*old(c)),
        lru_capacity(*old(c)) > 0,
    ensures
        r is Some <==> has_entry(lru_entries(*old(c)), k),
        r matches Some(w) ==> w == lru_entries(*old(c))[entry_index(lru_entries(*old(c)), k)].1,
        lru_entries(*final(c)) == lru_stored(lru_entries(*old(c)), k, v, lru_capacity(*old(c))),
        lru_capacity(*final(c)) == lru_capacity(*old(c)),
{
    c.put(k, v)
}

/// The entry found for `k` is at the one position that holds `k`.
proof fn lemma_entry_index(s: Seq<((u32, u32, u8), PixelBuffer)>, k: (u32, u32, u8), i: int)
    requires
        keys_unique(s),
        0 <= i < s.len(),
        s[i].0 == k,
    ensures
        has_entry(s, k),
        entry_index(s, k) == i,
{
    assert(has_entry(s, k));
    let j = entry_index(s, k);
    if j != i {
        if j < i {
            assert(s[j].0 != s[i].0);
        } else {
            assert(s[i].0 != s[j].0);
        }
    }
}

/// Taking out the entry at `i` leaves the keys unique and without `s[i].0`.
proof fn lemma_remove_entry(s: Seq<((u32, u32, u8), PixelBuffer)>, i: int)
    requires
        keys_unique(s),
        0 <= i < s.len(),
    ensures
        keys_unique(s.remove(i)),
        !has_entry(s.remove(i), s[i].0),
        forall|j: int| 0 <= j < s.len() && j != i ==> has_entry(s.remove(i), #[trigger] s[j].0),
{
    let t = s.remove(i);
    assert forall|a: int, b: int| 0 <= a < b < t.len() implies #[trigger] t[a].0 != #[trigger] t[b].0 by {
        let a0 = if a < i { a } else { a + 1 };
        let b0 = if b < i { b } else { b + 1 };
        assert(t[a] == s[a0]);
        assert(t[b] == s[b0]);
    }
    assert forall|a: int| 0 <= a < t.len() implies #[trigger] t[a].0 != s[i].0 by {
        let a0 = if a < i { a } else { a + 1 };
        assert(t[a] == s[a0]);
        if a0 < i {
            assert(s[a0].0 != s[i].0);
        } else {
            assert(s[i].0 != s[a0].0);
        }
    }
    assert forall|j: int| 0 <= j < s.len() && j != i implies has_entry(t, #[trigger] s[j].0) by {
        let j0 = if j < i { j } else { j - 1 };
        assert(t[j0] == s[j]);
    }
}

/// Appending a key not yet present keeps the keys unique.
proof fn lemma_push_new_key(t: Seq<((u32, u32, u8), PixelBuffer)>, e: ((u32, u32, u8), PixelBuffer))
    requires
        keys_unique(t),
        !has_entry(t, e.0),
    ensures
        keys_unique(t.push(e)),
        has_entry(t.push(e), e.0),
        forall|j: int| 0 <= j < t.len() ==> has_entry(t.push(e), #[trigger] t[j].0),
{
    let w = t.push(e);
    assert forall|a: int, b: int| 0 <= a < b < w.len() implies #[trigger] w[a].0 != #[trigger] w[b].0 by {
        assert(w[a] == t[a]);
        if b < t.len() {
            assert(w[b] == t[b]);
        }
    }
    assert(w[t.len() as int] == e);
    assert forall|j: int| 0 <= j < t.len() implies has_entry(w, #[trigger] t[j].0) by {
        assert(w[j] == t[j]);
    }
}

/// Touching keeps the keys unique and the count unchanged.
proof fn lemma_lru_touch_keeps_shape(s: Seq<((u32, u32, u8), PixelBuffer)>, k: (u32, u32, u8))
    requires
        keys_unique(s),
    ensures
        keys_unique(lru_touched(s, k)),
        lru_touched(s, k).len() == s.len(),
{
    if has_entry(s, k) {
        let i = entry_index(s, k);
        lemma_remove_entry(s, i);
        lemma_push_new_key(s.remove(i), s[i]);
    }
}

/// Storing keeps the keys unique and the count within the capacity;
/// the stored key is present afterwards.
proof fn lemma_lru_store_keeps_shape(s: Seq<((u32, u32, u8), PixelBuffer)>, k: (u32, u32, u8), v: PixelBuffer, cap: nat)
    requires
        keys_unique(s),
        s.len() <= cap,
        cap > 0,
    ensures
        keys_unique(lru_stored(s, k, v, cap)),
        lru_stored(s, k, v, cap).len() <= cap,
        lru_stored(s, k, v, cap).len() >= s.len(),
        has_entry(lru_stored(s, k, v, cap), k),
        lru_stored(s, k, v, cap).last() == (k, v),
{
    if has_entry(s, k) {
        let i = entry_index(s, k);
        lemma_remove_entry(s, i);
        lemma_push_new_key(s.remove(i), (k, v));
    } else {
        if s.len() < cap {
            lemma_push_new_key(s, (k, v));
        } else {
            lemma_remove_entry(s, 0);
            assert(s.remove(0) =~= s.drop_first());
            lemma_push_new_key(s.drop_first(), (k, v));
        }
    }
}

/// Touching changes no key's membership.
proof fn lemma_lru_touch_keeps_keys(s: Seq<((u32, u32, u8), PixelBuffer)>, q: (u32, u32, u8))
    requires
        keys_unique(s),
    ensures
        forall|k: (u32, u32, u8)| #[trigger] has_entry(lru_touched(s, q), k) == has_entry(s, k),
{
    assert forall|k: (u32, u32, u8)| #[trigger] has_entry(lru_touched(s, q), k) == has_entry(s, k) by {
        if has_entry(s, q) {
            let i = entry_index(s, q);
            lemma_remove_entry(s, i);
            let t = s.remove(i);
            let u = t.push(s[i]);
            if has_entry(s, k) {
                let j = choose|j: int| 0 <= j < s.len() && #[trigger] s[j].0 == k;
                if j == i {
                    assert(u[t.len() as int] == s[i]);
                } else {
                    let w = choose|w: int| 0 <= w < t.len() && #[trigger] t[w].0 == k;
                    assert(u[w] == t[w]);
                }
            }
            if has_entry(u, k) {
                let w = choose|w: int| 0 <= w < u.len() && #[trigger] u[w].0 == k;
                if w < t.len() {
                    assert(u[w] == t[w]);
                    let w0 = if w < i { w } else { w + 1 };
                    assert(t[w] == s[w0]);
                } else {
                    assert(u[w] == s[i]);
                }
            }
        }
    }
}

/// After storing under `q`, every key present is `q` or was present
/// before.
proof fn lemma_lru_store_keeps_keys(s: Seq<((u32, u32, u8), PixelBuffer)>, q: (u32, u32, u8), v: PixelBuffer, cap: nat)
    requires
        keys_unique(s),
        s.len() <= cap,
        cap > 0,
    ensures
        forall|k: (u32, u32, u8)|
            #[trigger] has_entry(lru_stored(s, q, v, cap), k) ==> k == q || has_entry(s, k),
{
    assert forall|k: (u32, u32, u8)| #[trigger] has_entry(lru_stored(s, q, v, cap), k) implies k == q
        || has_entry(s, k) by {
        let u = lru_stored(s, q, v, cap);
        let w = choose|w: int| 0 <= w < u.len() && #[trigger] u[w].0 == k;
        if k != q {
            if has_entry(s, q) {
                let i = entry_index(s, q);
                let t = s.remove(i);
                assert(u[w] == t[w]);
                let w0 = if w < i { w } else { w + 1 };
                assert(t[w] == s[w0]);
            } else if s.len() < cap {
                assert(u[w] == s[w]);
            } else {
                assert(u[w] == s.drop_first()[w]);
                assert(s.drop_first()[w] == s[w + 1]);
            }
        }
    }
}

/// A bounded memory of decoded tiles that evicts the least recently
/// used tile when a new one arrives while it is full.
pub struct TileMemory {
    cache: lru::LruCache<(u32, u32, u8), PixelBuffer>,
}

impl TileMemory {
    /// The stored tiles, least recently used first.
    pub closed spec fn entries(&self) -> Seq<((u32, u32, u8), PixelBuffer)> {
        lru_entries(self.cache)
    }

    /// The most tiles held at once.
    pub closed spec fn capacity(&self) -> nat {
        lru_capacity(self.cache)
    }

    /// Keys are unique and the count is within a positive capacity.
    pub open spec fn wf(&self) -> bool {
        &&& keys_unique(self.entries())
        &&& self.entries().len() <= self.capacity()
        &&& self.capacity() > 0
    }

    /// An empty memory holding at most `capacity` tiles.
    pub fn new(capacity: usize) -> (m: Self)
        requires
            capacity > 0,
        ensures
            m.entries() == Seq::<((u32, u32, u8), PixelBuffer)>::empty(),
            m.capacity() == capacity,
            m.wf(),
    {
        TileMemory { cache: lru_new(capacity) }
    }

    /// The tile stored for `key`, if any; a hit makes it the most
    /// recently used.
    pub fn get(&mut self, key: TileKey) -> (r: Option<&PixelBuffer>)
        requires
            old(self).wf(),
        ensures
            final(self).wf(),
            r is Some <==> has_entry(old(self).entries(), mem_key(key)),
            r matches Some(v) ==> *v == old(self).entries()[entry_index(
                old(self).entries(),
                mem_key(key),
            )].1,
            final(self).entries() == lru_touched(old(self).entries(), mem_key(key)),
            final(self).capacity() == old(self).capacity(),
    {
        proof {
            lemma_lru_touch_keeps_shape(self.entries(), mem_key(key));
        }
        lru_get(&mut self.cache, &(key.x, key.y, key.z))
    }

    /// The tile stored for `key`, if any, without touching the order.
    pub fn peek(&self, key: TileKey) -> (r: Option<&PixelBuffer>)
        requires
            self.wf(),
        ensures
            r is Some <==> has_entry(self.entries(), mem_key(key)),
            r matches Some(v) ==> *v == self.entries()[entry_index(self.entries(), mem_key(key))].1,
    {
        lru_peek(&self.cache, &(key.x, key.y, key.z))
    }

    /// Store `tile` under `key`, returning the tile it replaced.
    pub fn put(&mut self, key: TileKey, tile: PixelBuffer) -> (r: Option<PixelBuffer>)
        requires
            old(self).wf(),
        ensures
            final(self).wf(),
            r is Some <==> has_entry(old(self).entries(), mem_key(key)),
            r matches Some(w) ==> w == old(self).entries()[entry_index(
                old(self).entries(),
                mem_key(key),
            )].1,
            final(self).entries() == lru_stored(
                old(self).entries(),
                mem_key(key),
                tile,
                old(self).capacity(),
            ),
            final(self).capacity() == old(self).capacity(),
    {
        proof {
            lemma_lru_store_keeps_shape(self.entries(), mem_key(key), tile, self.capacity());
        }
        lru_put(&mut self.cache, (key.x, key.y, key.z), tile)
    }
}

/// The memory, in-flight and failed keys of the browser tile source.
pub struct WasmModel {
    pub memory: Seq<((u32, u32, u8), PixelBuffer)>,
    pub in_flight: Set<TileKey>,
    pub failed: Set<TileKey>,
}

/// The model after a request for `k`, and the answer to it: a tile in
/// memory is served and becomes the most recently used.
pub open spec fn spec_wasm_request(m: WasmModel, k: TileKey) -> (WasmModel, TileRequest) {
    if has_entry(m.memory, mem_key(k)) {
        (
            WasmModel {
                memory: lru_touched(m.memory, mem_key(k)),
                in_flight: m.in_flight,
                failed: m.failed,
            },
            TileRequest::Ready,
        )
    } else if m.failed.contains(k) {
        (m, TileRequest::Suppressed)
    } else if m.in_flight.contains(k) {
        (m, TileRequest::Pending)
    } else {
        (
            WasmModel { memory: m.memory, in_flight: m.in_flight.insert(k), failed: m.failed },
            TileRequest::Enqueue,
        )
    }
}

/// The model after the request for `k` could not be sent.
pub open spec fn spec_wasm_send_failed(m: WasmModel, k: TileKey) -> WasmModel {
    WasmModel { memory: m.memory, in_flight: m.in_flight.remove(k), failed: m.failed.insert(k) }
}

/// The model after the request for `k` completed with `tile`.
pub open spec fn spec_wasm_loaded(m: WasmModel, k: TileKey, tile: Option<PixelBuffer>) -> WasmModel {
    match tile {
        Some(b) => WasmModel {
            memory: lru_stored(m.memory, mem_key(k), b, TILE_CACHE_CAPACITY as nat),
            in_flight: m.in_flight.remove(k),
            failed: m.failed,
        },
        None => WasmModel {
            memory: m.memory,
            in_flight: m.in_flight.remove(k),
            failed: m.failed.insert(k),
        },
    }
}

/// The memory holds unique keys, at most `TILE_CACHE_CAPACITY` of them,
/// and no tile in memory is also in flight.
pub open spec fn wasm_model_inv(m: WasmModel) -> bool {
    &&& keys_unique(m.memory)
    &&& m.memory.len() <= TILE_CACHE_CAPACITY
    &&& forall|k: TileKey| #[trigger] m.in_flight.contains(k) ==> !has_entry(m.memory, mem_key(k))
}

/// The bookkeeping of the browser tile source.
pub struct WasmFetchState {
    memory: TileMemory,
    in_flight: KeySet,
    failed: KeySet,
}

impl View for WasmFetchState {
    type V = WasmModel;

    closed spec fn view(&self) -> WasmModel {
        WasmModel { memory: self.memory.entries(), in_flight: self.in_flight@, failed: self.failed@ }
    }
}

impl WasmFetchState {
    /// The invariant of the model, with the memory made at the fixed
    /// capacity.
    pub closed spec fn wf(&self) -> bool {
        &&& self.memory.wf()
        &&& self.memory.capacity() == TILE_CACHE_CAPACITY
        &&& wasm_model_inv(self@)
    }

    /// The most tiles the memory holds at once.
    pub closed spec fn memory_capacity(&self) -> nat {
        self.memory.capacity()
    }

    /// An empty memory of `TILE_CACHE_CAPACITY` tiles; nothing in flight
    /// or failed.
    pub fn new() -> (s: Self)
        ensures
            s@.memory == Seq::<((u32, u32, u8), PixelBuffer)>::empty(),
            s@.in_flight == Set::<TileKey>::empty(),
            s@.failed == Set::<TileKey>::empty(),
            s.memory_capacity() == TILE_CACHE_CAPACITY,
            wasm_model_inv(s@),
            s.wf(),
    {
        WasmFetchState {
            memory: TileMemory::new(TILE_CACHE_CAPACITY),
            in_flight: KeySet::new(),
            failed: KeySet::new(),
        }
    }

    /// Decide what to do with a request for `key`; a tile in memory
    /// becomes the most recently used, a fresh key is marked in flight.
    pub fn request(&mut self, key: TileKey) -> (r: TileRequest)
        requires
            old(self).wf(),
        ensures
            (final(self)@, r) == spec_wasm_request(old(self)@, key),
            final(self).memory_capacity() == TILE_CACHE_CAPACITY,
            wasm_model_inv(final(self)@),
            final(self).wf(),
    {
        proof {
            law_wasm_transitions_keep_invariant(self@, key, None);
        }
        let hit = self.memory.get(key).is_some();
        if hit {
            TileRequest::Ready
        } else if self.failed.contains(key) {
            TileRequest::Suppressed
        } else if !self.in_flight.insert(key) {
            assert(self.in_flight@ =~= old(self).in_flight@);
            TileRequest::Pending
        } else {
            TileRequest::Enqueue
        }
    }

    /// The tile in memory for `key`, if any, leaving the order as it is.
    pub fn cached(&self, key: TileKey) -> (r: Option<&PixelBuffer>)
        requires
            self.wf(),
        ensures
            r is Some <==> has_entry(self@.memory, mem_key(key)),
            r matches Some(v) ==> *v == self@.memory[entry_index(self@.memory, mem_key(key))].1,
    {
        self.memory.peek(key)
    }

    /// The request for `key` could not be sent: remember the failure and
    /// take the key out of flight.
    pub fn send_failed(&mut self, key: TileKey)
        requires
            old(self).wf(),
        ensures
            final(self)@ == spec_wasm_send_failed(old(self)@, key),
            final(self).memory_capacity() == TILE_CACHE_CAPACITY,
            wasm_model_inv(final(self)@),
            final(self).wf(),
    {
        self.failed.insert(key);
        self.in_flight.remove(key);
        proof {
            law_wasm_transitions_keep_invariant(old(self)@, key, None);
        }
    }

    /// The request for `key` completed: a decoded tile goes to memory,
    /// no tile marks the key failed; either way it leaves flight.
    pub fn loaded(&mut self, key: TileKey, tile: Option<PixelBuffer>)
        requires
            old(self).wf(),
        ensures
            final(self)@ == spec_wasm_loaded(old(self)@, key, tile),
            final(self).memory_capacity() == TILE_CACHE_CAPACITY,
            wasm_model_inv(final(self)@),
            final(self).wf(),
    {
        proof {
            law_wasm_transitions_keep_invariant(self@, key, tile);
        }
        match tile {
            Some(b) => {
                self.memory.put(key, b);
            },
            None => {
                self.failed.insert(key);
            },
        }
        self.in_flight.remove(key);
    }
}

/// The tile an XMLHttpRequest completion yields: the decoded body of a
/// 2xx response, or nothing.
pub fn response_tile(status: u16, body: Option<&[u8]>) -> (r: Option<PixelBuffer>)
    ensures
        !(200 <= status < 300) ==> r is None,
        200 <= status < 300 ==> match body {
            None => r is None,
            Some(b) => png_decodes_to(b@, r),
        },
{
    if 200 <= status && status < 300 {
        match body {
            Some(b) => decode_png_to_buffer(b),
            None => None,
        }
    } else {
        None
    }
}

/// A tile that finished loading is served from memory, and what is
/// served is the tile that was loaded.
pub proof fn law_wasm_loaded_tile_is_served(m: WasmModel, k: TileKey, b: PixelBuffer)
    requires
        wasm_model_inv(m),
    ensures
        spec_wasm_request(spec_wasm_loaded(m, k, Some(b)), k).1 == TileRequest::Ready,
        has_entry(spec_wasm_loaded(m, k, Some(b)).memory, mem_key(k)),
        spec_wasm_loaded(m, k, Some(b)).memory[entry_index(
            spec_wasm_loaded(m, k, Some(b)).memory,
            mem_key(k),
        )].1 == b,
        !spec_wasm_loaded(m, k, Some(b)).in_flight.contains(k),
{
    let u = spec_wasm_loaded(m, k, Some(b)).memory;
    lemma_lru_store_keeps_shape(m.memory, mem_key(k), b, TILE_CACHE_CAPACITY as nat);
    lemma_entry_index(u, mem_key(k), u.len() - 1);
}

/// The memory never holds more than `TILE_CACHE_CAPACITY` tiles, never
/// holds a key twice, and never holds a tile that is also in flight,
/// whatever happens.
pub proof fn law_wasm_transitions_keep_invariant(m: WasmModel, k: TileKey, tile: Option<PixelBuffer>)
    requires
        wasm_model_inv(m),
    ensures
        wasm_model_inv(spec_wasm_request(m, k).0),
        wasm_model_inv(spec_wasm_send_failed(m, k)),
        wasm_model_inv(spec_wasm_loaded(m, k, tile)),
{
    lemma_lru_touch_keeps_shape(m.memory, mem_key(k));
    lemma_lru_touch_keeps_keys(m.memory, mem_key(k));
    let r = spec_wasm_request(m, k).0;
    assert forall|q: TileKey| #[trigger] r.in_flight.contains(q) implies !has_entry(
        r.memory,
        mem_key(q),
    ) by {
        if q != k {
            assert(m.in_flight.contains(q));
        }
        assert(has_entry(lru_touched(m.memory, mem_key(k)), mem_key(q)) == has_entry(
            m.memory,
            mem_key(q),
        ));
    }
    let f = spec_wasm_send_failed(m, k);
    assert forall|q: TileKey| #[trigger] f.in_flight.contains(q) implies !has_entry(
        f.memory,
        mem_key(q),
    ) by {
        assert(m.in_flight.contains(q));
    }
    let l = spec_wasm_loaded(m, k, tile);
    if let Some(b) = tile {
        lemma_lru_store_keeps_shape(m.memory, mem_key(k), b, TILE_CACHE_CAPACITY as nat);
        lemma_lru_store_keeps_keys(m.memory, mem_key(k), b, TILE_CACHE_CAPACITY as nat);
    }
    assert forall|q: TileKey| #[trigger] l.in_flight.contains(q) implies !has_entry(
        l.memory,
        mem_key(q),
    ) by {
        assert(m.in_flight.contains(q));
        assert(q != k);
        assert(mem_key(q) != mem_key(k));
    }
}

/// When a new tile arrives in a full memory, the tile evicted is the
/// least recently used one; every other tile stays.
pub proof fn law_wasm_evicts_least_recently_used(m: WasmModel, k: TileKey, b: PixelBuffer)
    requires
        wasm_model_inv(m),
        m.memory.len() == TILE_CACHE_CAPACITY,
        !has_entry(m.memory, mem_key(k)),
    ensures
        spec_wasm_loaded(m, k, Some(b)).memory.len() == TILE_CACHE_CAPACITY,
        !has_entry(spec_wasm_loaded(m, k, Some(b)).memory, m.memory[0].0),
        forall|j: int|
            1 <= j < m.memory.len() ==> has_entry(
                spec_wasm_loaded(m, k, Some(b)).memory,
                #[trigger] m.memory[j].0,
            ),
{
    let s = m.memory;
    lemma_remove_entry(s, 0);
    assert(s.remove(0) =~= s.drop_first());
    lemma_push_new_key(s.drop_first(), (mem_key(k), b));
    let u = spec_wasm_loaded(m, k, Some(b)).memory;
    assert(u == s.drop_first().push((mem_key(k), b)));
    if has_entry(u, s[0].0) {
        let w = choose|w: int| 0 <= w < u.len() && #[trigger] u[w].0 == s[0].0;
        if w < u.len() - 1 {
            assert(u[w] == s.drop_first()[w]);
        }
    }
    assert forall|j: int| 1 <= j < s.len() implies has_entry(u, #[trigger] s[j].0) by {
        assert(s.drop_first()[j - 1] == s[j]);
        assert(u[j - 1] == s[j]);
    }
}

/// A tile just served is the most recently used, so the next load of
/// another tile never evicts it.
pub proof fn law_wasm_served_tile_survives_next_load(m: WasmModel, k: TileKey, k2: TileKey, b: PixelBuffer)
    requires
        wasm_model_inv(m),
        has_entry(m.memory, mem_key(k)),
        k2 != k,
    ensures
        spec_wasm_request(m, k).0.memory.last().0 == mem_key(k),
        has_entry(spec_wasm_loaded(spec_wasm_request(m, k).0, k2, Some(b)).memory, mem_key(k)),
{
    let s = m.memory;
    lemma_lru_touch_keeps_shape(s, mem_key(k));
    let t = spec_wasm_request(m, k).0.memory;
    let n = t.len() - 1;
    assert(t[n].0 == mem_key(k));
    assert(mem_key(k2) != mem_key(k));
    let u = lru_stored(t, mem_key(k2), b, TILE_CACHE_CAPACITY as nat);
    if has_entry(t, mem_key(k2)) {
        let i = entry_index(t, mem_key(k2));
        assert(i != n);
        lemma_remove_entry(t, i);
        assert(has_entry(t.remove(i), t[n].0));
        lemma_push_new_key(t.remove(i), (mem_key(k2), b));
    } else if t.len() < TILE_CACHE_CAPACITY {
        assert(u[n] == t[n]);
    } else {
        assert(u[n - 1] == t.drop_first()[n - 1]);
        assert(t.drop_first()[n - 1] == t[n]);
    }
}

/// A key that failed and is not in memory is not requested again; a
/// key just put in flight is not queued a second time.
pub proof fn law_wasm_requests_are_not_repeated(m: WasmModel, k: TileKey)
    ensures
        m.failed.contains(k) && !has_entry(m.memory, mem_key(k)) ==> spec_wasm_request(m, k) == (
        m, TileRequest::Suppressed),
        spec_wasm_request(m, k).1 == TileRequest::Enqueue ==> spec_wasm_request(
            spec_wasm_request(m, k).0,
            k,
        ) == (spec_wasm_request(m, k).0, TileRequest::Pending),
{
}

} // verus!
