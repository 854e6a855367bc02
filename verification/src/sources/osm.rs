//! Request bookkeeping of the HTTP tile source.
//!
//! The source keeps three sets of keys: tiles decoded and ready in
//! memory, tiles whose fetch or decode failed this session, and tiles
//! somewhere in the fetch / decode pipeline. `FetchState` decides, for
//! each request and each worker completion, how those sets change and
//! what the caller should do next. Threads, HTTP and image memory stay
//! with the caller.
use crate::source::TileKey;
use crate::sources::keyset::KeySet;
use crate::sources::queue::{select, WorkQueue};
use vstd::prelude::*;

verus! {

/// The default OSM tile URL template.
pub const OSM_TILE_URL: &'static str = "https://tile.openstreetmap.org/{z}/{x}/{y}.png";

/// Default number of parallel HTTP workers.
pub const DEFAULT_FETCH_WORKERS: usize = 2;

/// One job for the decode worker. `bytes: None` means "read from the
/// disk cache".
pub struct DecodeJob {
    pub key: TileKey,
    pub bytes: Option<Vec<u8>>,
}

/// The tile size and zoom range an HTTP tile source serves.
pub struct OsmTileSettings {
    tile_size: u32,
    min_zoom: u8,
    max_zoom: u8,
}

impl OsmTileSettings {
    pub closed spec fn spec_tile_size(&self) -> u32 {
        self.tile_size
    }

    pub closed spec fn spec_min_zoom(&self) -> u8 {
        self.min_zoom
    }

    pub closed spec fn spec_max_zoom(&self) -> u8 {
        self.max_zoom
    }

    /// 256-pixel tiles at zooms 0 to 19.
    pub fn new() -> (s: Self)
        ensures
            s.spec_tile_size() == 256,
            s.spec_min_zoom() == 0,
            s.spec_max_zoom() == 19,
    {
        OsmTileSettings { tile_size: 256, min_zoom: 0, max_zoom: 19 }
    }

    /// Override the served zoom range.
    pub fn with_zoom_range(self, min: u8, max: u8) -> (s: Self)
        ensures
            s.spec_tile_size() == self.spec_tile_size(),
            s.spec_min_zoom() == min,
            s.spec_max_zoom() == max,
    {
        OsmTileSettings { tile_size: self.tile_size, min_zoom: min, max_zoom: max }
    }

    /// Override the tile edge length.
    pub fn with_tile_size(self, size: u32) -> (s: Self)
        ensures
            s.spec_tile_size() == size,
            s.spec_min_zoom() == self.spec_min_zoom(),
            s.spec_max_zoom() == self.spec_max_zoom(),
    {
        OsmTileSettings { tile_size: size, min_zoom: self.min_zoom, max_zoom: self.max_zoom }
    }

    /// Tile edge length in pixels.
    pub fn tile_size(&self) -> (s: u32)
        ensures
            s == self.spec_tile_size(),
    {
        self.tile_size
    }

    /// Lowest zoom served.
    pub fn min_zoom(&self) -> (z: u8)
        ensures
            z == self.spec_min_zoom(),
    {
        self.min_zoom
    }

    /// Highest zoom served.
    pub fn max_zoom(&self) -> (z: u8)
        ensures
            z == self.spec_max_zoom(),
    {
        self.max_zoom
    }
}

/// How long a fetch worker waits before its next request: the rest of
/// the politeness interval of `interval_ms` milliseconds when only
/// `since_nanos` nanoseconds passed since its last request, else
/// nothing. In nanoseconds.
pub open spec fn spec_politeness_wait(since_nanos: u128, interval_ms: u64) -> int {
    if since_nanos < interval_ms * 1_000_000 {
        interval_ms * 1_000_000 - since_nanos
    } else {
        0
    }
}

/// The pause, in nanoseconds, before a fetch worker's next request.
pub fn politeness_wait_nanos(since_nanos: u128, interval_ms: u64) -> (w: u128)
    ensures
        w == spec_politeness_wait(since_nanos, interval_ms),
{
    let interval: u128 = interval_ms as u128 * 1_000_000;
    if since_nanos < interval {
        interval - since_nanos
    } else {
        0
    }
}

/// What the caller of `tile(key)` should do.
#[derive(Clone, Copy, Debug, PartialEq, Eq, Structural)]
pub enum TileRequest {
    /// The decoded tile is in memory: serve it.
    Ready,
    /// The tile failed earlier this session: serve nothing, fetch nothing.
    Suppressed,
    /// The tile is already in the pipeline: serve nothing yet.
    Pending,
    /// The tile is now in flight: queue it for decode (if the disk cache
    /// has it) or for fetch, and serve nothing yet.
    Enqueue,
}

/// The three key sets of the pipeline.
pub struct FetchModel {
    pub ready: Set<TileKey>,
    pub failed: Set<TileKey>,
    pub in_flight: Set<TileKey>,
}

/// The model after a request for `k`, and the answer to it.
pub open spec fn spec_request(m: FetchModel, k: TileKey) -> (FetchModel, TileRequest) {
    if m.ready.contains(k) {
        (m, TileRequest::Ready)
    } else if m.failed.contains(k) {
        (m, TileRequest::Suppressed)
    } else if m.in_flight.contains(k) {
        (m, TileRequest::Pending)
    } else {
        (
            FetchModel { ready: m.ready, failed: m.failed, in_flight: m.in_flight.insert(k) },
            TileRequest::Enqueue,
        )
    }
}

/// The model after a fetch of `k` failed.
pub open spec fn spec_fetch_failed(m: FetchModel, k: TileKey) -> FetchModel {
    FetchModel { ready: m.ready, failed: m.failed.insert(k), in_flight: m.in_flight.remove(k) }
}

/// The model after the decode of `k` finished, successfully or not.
pub open spec fn spec_decoded(m: FetchModel, k: TileKey, ok: bool) -> FetchModel {
    if ok {
        FetchModel {
            ready: m.ready.insert(k),
            failed: m.failed.remove(k),
            in_flight: m.in_flight.remove(k),
        }
    } else {
        FetchModel { ready: m.ready, failed: m.failed.insert(k), in_flight: m.in_flight.remove(k) }
    }
}

/// The model after the failure memo is cleared.
pub open spec fn spec_clear_failed(m: FetchModel) -> FetchModel {
    FetchModel { ready: m.ready, failed: Set::empty(), in_flight: m.in_flight }
}

/// The in-flight set after a cancellation that dropped queued work:
/// only keys still wanted or already in memory stay.
pub open spec fn spec_cancel_in_flight(m: FetchModel, keep: Set<TileKey>) -> Set<TileKey> {
    m.in_flight.filter(|k: TileKey| keep.contains(k) || m.ready.contains(k))
}

/// No key is both ready and in flight, and no key is both failed and
/// in flight.
pub open spec fn model_inv(m: FetchModel) -> bool {
    &&& m.ready.disjoint(m.in_flight)
    &&& m.failed.disjoint(m.in_flight)
}

/// The bookkeeping of an HTTP tile source.
pub struct FetchState {
    ready: KeySet,
    failed: KeySet,
    in_flight: KeySet,
}

impl View for FetchState {
    type V = FetchModel;

    closed spec fn view(&self) -> FetchModel {
        FetchModel { ready: self.ready@, failed: self.failed@, in_flight: self.in_flight@ }
    }
}

impl FetchState {
    /// Whether the pipeline invariant holds.
    pub open spec fn wf(&self) -> bool {
        model_inv(self@)
    }

    /// Nothing ready, failed or in flight.
    pub fn new() -> (s: Self)
        ensures
            s@.ready == Set::<TileKey>::empty(),
            s@.failed == Set::<TileKey>::empty(),
            s@.in_flight == Set::<TileKey>::empty(),
            s.wf(),
    {
        FetchState { ready: KeySet::new(), failed: KeySet::new(), in_flight: KeySet::new() }
    }

    /// Decide what to do with a request for `key`; a fresh key is
    /// marked in flight.
    pub fn request(&mut self, key: TileKey) -> (r: TileRequest)
        requires
            old(self).wf(),
        ensures
            (final(self)@, r) == spec_request(old(self)@, key),
            final(self).wf(),
    {
        if self.ready.contains(key) {
            TileRequest::Ready
        } else if self.failed.contains(key) {
            TileRequest::Suppressed
        } else if !self.in_flight.insert(key) {
            assert(self.in_flight@ =~= old(self).in_flight@);
            TileRequest::Pending
        } else {
            TileRequest::Enqueue
        }
    }

    /// A fetch worker could not get `key`: remember the failure and
    /// take the key out of the pipeline.
    pub fn fetch_failed(&mut self, key: TileKey)
        requires
            old(self).wf(),
        ensures
            final(self)@ == spec_fetch_failed(old(self)@, key),
            final(self).wf(),
    {
        self.failed.insert(key);
        self.in_flight.remove(key);
    }

    /// The decode worker finished `key`; `ok` says whether it produced
    /// an image (which the caller has stored in memory).
    pub fn decode_finished(&mut self, key: TileKey, ok: bool)
        requires
            old(self).wf(),
        ensures
            final(self)@ == spec_decoded(old(self)@, key, ok),
            final(self).wf(),
    {
        if ok {
            self.ready.insert(key);
            self.failed.remove(key);
        } else {
            self.failed.insert(key);
        }
        self.in_flight.remove(key);
    }

    /// Clear the "tried and failed" memo.
    pub fn clear_failed(&mut self)
        requires
            old(self).wf(),
        ensures
            final(self)@ == spec_clear_failed(old(self)@),
            final(self).wf(),
    {
        self.failed.clear();
    }

    /// Whether `key` is decoded and in memory.
    pub fn is_ready(&self, key: TileKey) -> (b: bool)
        ensures
            b == self@.ready.contains(key),
    {
        self.ready.contains(key)
    }

    /// Whether `key` failed this session.
    pub fn is_failed(&self, key: TileKey) -> (b: bool)
        ensures
            b == self@.failed.contains(key),
    {
        self.failed.contains(key)
    }

    /// Whether `key` is in the pipeline.
    pub fn is_in_flight(&self, key: TileKey) -> (b: bool)
        ensures
            b == self@.in_flight.contains(key),
    {
        self.in_flight.contains(key)
    }

    /// Whether no key is remembered as failed.
    pub fn no_failures(&self) -> (b: bool)
        ensures
            b == (self@.failed == Set::<TileKey>::empty()),
    {
        self.failed.is_empty()
    }

    /// Drop queued fetches for keys not in `keep`; when any were
    /// dropped, keys neither wanted nor ready leave the in-flight set so
    /// a later request queues them again. Returns the number dropped.
    pub fn cancel_all_except(&mut self, fetch_queue: &mut WorkQueue<TileKey>, keep: &KeySet) -> (dropped: usize)
        requires
            old(self).wf(),
        ensures
            final(fetch_queue).items() == old(fetch_queue).items().filter(
                |k: TileKey| keep@.contains(k),
            ),
            final(fetch_queue).is_shut_down() == old(fetch_queue).is_shut_down(),
            dropped == old(fetch_queue).items().len() - final(fetch_queue).items().len(),
            final(self)@.ready == old(self)@.ready,
            final(self)@.failed == old(self)@.failed,
            final(self)@.in_flight == if dropped > 0 {
                spec_cancel_in_flight(old(self)@, keep@)
            } else {
                old(self)@.in_flight
            },
            final(self).wf(),
    {
        let ghost q0 = fetch_queue.items();
        let wanted = |k: &TileKey| -> (b: bool)
            ensures
                b == keep@.contains(*k),
            { keep.contains(*k) };
        let dropped = fetch_queue.retain(wanted);
        proof {
            let kept = choose|kept: Seq<bool>|
                {
                    &&& kept.len() == q0.len()
                    &&& forall|i: int|
                        0 <= i < kept.len() ==> #[trigger] wanted.ensures((&q0[i],), kept[i])
                    &&& fetch_queue.items() == select(q0, kept)
                };
            assert forall|i: int| 0 <= i < kept.len() implies #[trigger] kept[i] == keep@.contains(
                q0[i],
            ) by {
                assert(wanted.ensures((&q0[i],), kept[i]));
            }
            lemma_select_filter(q0, kept, keep@);
        }
        if dropped > 0 {
            let ghost m = self@;
            let ready = &self.ready;
            let stays = |k: &TileKey| -> (b: bool)
                ensures
                    b == (keep@.contains(*k) || ready@.contains(*k)),
                { keep.contains(*k) || ready.contains(*k) };
            self.in_flight.retain(stays);
            assert(self@.in_flight =~= spec_cancel_in_flight(m, keep@));
        }
        dropped
    }
}

/// Selecting by the membership flags of `keep` is filtering by it.
proof fn lemma_select_filter(s: Seq<TileKey>, kept: Seq<bool>, keep: Set<TileKey>)
    requires
        kept.len() == s.len(),
        forall|i: int| 0 <= i < kept.len() ==> #[trigger] kept[i] == keep.contains(s[i]),
    ensures
        select(s, kept) == s.filter(|k: TileKey| keep.contains(k)),
    decreases s.len(),
{
    reveal_with_fuel(Seq::filter, 1);
    if s.len() > 0 {
        lemma_select_filter(s.drop_last(), kept.drop_last(), keep);
        assert(s.filter(|k: TileKey| keep.contains(k)) == {
            let rest = s.drop_last().filter(|k: TileKey| keep.contains(k));
            if keep.contains(s.last()) {
                rest.push(s.last())
            } else {
                rest
            }
        });
    }
}

/// A key that failed this session and is not in memory is never queued
/// again: asking for it leaves every set as it was.
pub proof fn law_failed_key_is_not_requeued(m: FetchModel, k: TileKey)
    requires
        m.failed.contains(k),
        !m.ready.contains(k),
    ensures
        spec_request(m, k) == (m, TileRequest::Suppressed),
{
}

/// A key is never queued twice while it is in flight: right after a
/// request put it in the pipeline, asking again answers `Pending`.
pub proof fn law_no_double_enqueue(m: FetchModel, k: TileKey)
    requires
        spec_request(m, k).1 == TileRequest::Enqueue,
    ensures
        spec_request(spec_request(m, k).0, k).1 == TileRequest::Pending,
        spec_request(spec_request(m, k).0, k).0 == spec_request(m, k).0,
{
}

/// Once a key decoded successfully it is served from memory.
pub proof fn law_decoded_tile_is_served(m: FetchModel, k: TileKey)
    ensures
        spec_request(spec_decoded(m, k, true), k).1 == TileRequest::Ready,
        !spec_decoded(m, k, true).in_flight.contains(k),
{
}

/// A key whose fetch or decode failed, and which is not in memory, is
/// suppressed from then on; it is out of the pipeline either way.
pub proof fn law_failure_is_remembered(m: FetchModel, k: TileKey)
    requires
        !m.ready.contains(k),
    ensures
        spec_request(spec_fetch_failed(m, k), k).1 == TileRequest::Suppressed,
        spec_request(spec_decoded(m, k, false), k).1 == TileRequest::Suppressed,
        !spec_fetch_failed(m, k).in_flight.contains(k),
        !spec_decoded(m, k, false).in_flight.contains(k),
{
}

/// After the failure memo is cleared, a key that is neither in memory
/// nor in flight is queued again.
pub proof fn law_clear_failed_allows_retry(m: FetchModel, k: TileKey)
    requires
        !m.ready.contains(k),
        !m.in_flight.contains(k),
    ensures
        spec_request(spec_clear_failed(m), k).1 == TileRequest::Enqueue,
{
}

/// When every queued key is in flight, a key that a cancellation drops
/// from the queue is queued again by the next request for it.
pub proof fn law_dropped_key_is_requeued(m: FetchModel, queue: Seq<TileKey>, keep: Set<TileKey>, k: TileKey)
    requires
        model_inv(m),
        forall|i: int| 0 <= i < queue.len() ==> m.in_flight.contains(#[trigger] queue[i]),
        queue.contains(k),
        !keep.contains(k),
    ensures
        queue.filter(|q: TileKey| keep.contains(q)).len() < queue.len(),
        spec_request(
            FetchModel { ready: m.ready, failed: m.failed, in_flight: spec_cancel_in_flight(m, keep) },
            k,
        ).1 == TileRequest::Enqueue,
{
    let i = choose|i: int| 0 <= i < queue.len() && queue[i] == k;
    assert(m.in_flight.contains(queue[i]));
    lemma_filter_drops(queue, keep, i);
}

/// Filtering out an element that fails the test shortens the sequence.
proof fn lemma_filter_drops(s: Seq<TileKey>, keep: Set<TileKey>, i: int)
    requires
        0 <= i < s.len(),
        !keep.contains(s[i]),
    ensures
        s.filter(|q: TileKey| keep.contains(q)).len() < s.len(),
    decreases s.len(),
{
    reveal_with_fuel(Seq::filter, 1);
    let f = |q: TileKey| keep.contains(q);
    s.drop_last().lemma_filter_len(f);
    if i == s.len() - 1 {
        assert(s.filter(f) == s.drop_last().filter(f));
    } else {
        assert(s.drop_last()[i] == s[i]);
        lemma_filter_drops(s.drop_last(), keep, i);
    }
}

/// Every transition keeps ready and in-flight keys apart, and failed
/// and in-flight keys apart.
pub proof fn law_transitions_keep_invariant(m: FetchModel, k: TileKey, ok: bool, keep: Set<TileKey>)
    requires
        model_inv(m),
    ensures
        model_inv(spec_request(m, k).0),
        model_inv(spec_fetch_failed(m, k)),
        model_inv(spec_decoded(m, k, ok)),
        model_inv(spec_clear_failed(m)),
        model_inv(FetchModel { ready: m.ready, failed: m.failed, in_flight: spec_cancel_in_flight(m, keep) }),
{
}

} // verus!
