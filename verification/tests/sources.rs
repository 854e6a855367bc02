use slint_mapping::cache::{CacheError, FileTileCache};
use slint_mapping::sources::file::FileTileSource;
use slint_mapping::sources::keyset::KeySet;
use slint_mapping::sources::osm::{
    politeness_wait_nanos, FetchState, OsmTileSettings, TileRequest, OSM_TILE_URL,
};
use slint_mapping::sources::queue::{PopOutcome, WorkQueue};
use slint_mapping::sources::synthetic::SyntheticTileSource;
use slint_mapping::sources::util::{decode_png_to_buffer, format_url, pixels_from_rgba, Rgba8};
use slint_mapping::TileKey;
use std::collections::HashSet;

#[test]
fn util_format_url_substitutes() {
    assert_eq!(
        format_url("https://x/{z}/{x}/{y}.png", TileKey { x: 5, y: 10, z: 2 }),
        "https://x/2/5/10.png"
    );
}

#[test]
fn osm_format_url_substitutes() {
    assert_eq!(
        format_url("https://x/{z}/{x}/{y}.png", TileKey { x: 5, y: 10, z: 2 }),
        "https://x/2/5/10.png"
    );
}

#[test]
fn format_url_handles_large_and_repeated_placeholders() {
    assert_eq!(
        format_url(OSM_TILE_URL, TileKey { x: 4294967295, y: 0, z: 255 }),
        "https://tile.openstreetmap.org/255/4294967295/0.png"
    );
    assert_eq!(
        format_url("{x}-{x}/{y}{z}", TileKey { x: 7, y: 80, z: 9 }),
        "7-7/809"
    );
    assert_eq!(format_url("no placeholders", TileKey { x: 1, y: 2, z: 3 }), "no placeholders");
    assert_eq!(format_url("{{z}}", TileKey { x: 1, y: 2, z: 3 }), "{3}");
}

#[test]
fn zoom_range_overridable() {
    let src = FileTileSource::new("/tmp").with_zoom_range(5, 14);
    assert_eq!(src.min_zoom(), 5);
    assert_eq!(src.max_zoom(), 14);
}

#[test]
fn file_source_defaults_and_paths() {
    let src = FileTileSource::new("/data/tiles");
    assert_eq!(src.tile_size(), 256);
    assert_eq!(src.min_zoom(), 0);
    assert_eq!(src.max_zoom(), 22);
    assert_eq!(src.tile_path(TileKey { x: 3, y: 4, z: 5 }), "/data/tiles/5/3/4.png");
    let src = src.with_extension("jpg").with_tile_size(512);
    assert_eq!(src.tile_size(), 512);
    assert_eq!(src.tile_path(TileKey { x: 3, y: 4, z: 5 }), "/data/tiles/5/3/4.jpg");
}

#[test]
fn cache_paths_follow_slippy_layout() {
    let cache = FileTileCache::new("/var/cache/tiles/");
    assert_eq!(cache.root(), "/var/cache/tiles/");
    assert_eq!(
        cache.path_for(TileKey { x: 1234, y: 5678, z: 12 }),
        "/var/cache/tiles/12/1234/5678.png"
    );
    let cache = FileTileCache::new("").with_extension("webp");
    assert_eq!(cache.path_for(TileKey { x: 0, y: 0, z: 0 }), "0/0/0.webp");
    let cache = FileTileCache::new("rel");
    assert_eq!(cache.path_for(TileKey { x: 1, y: 2, z: 3 }), "rel/3/1/2.png");
}

#[test]
fn cache_error_messages() {
    assert_eq!(CacheError::Other("full".into()).message(), "tile cache error: full");
    let e: CacheError = std::io::Error::new(std::io::ErrorKind::Other, "disk gone").into();
    assert!(matches!(e, CacheError::Io(_)));
    assert_eq!(e.message(), "tile cache I/O error: disk gone");
}

#[test]
fn cancel_drops_queued_work() {
    let mut q: WorkQueue<TileKey> = WorkQueue::new();
    q.push(TileKey { x: 1, y: 1, z: 5 });
    q.push(TileKey { x: 2, y: 2, z: 5 });
    q.push(TileKey { x: 3, y: 3, z: 5 });
    let keep: HashSet<TileKey> = [TileKey { x: 2, y: 2, z: 5 }].into_iter().collect();
    let dropped = q.retain(|k| keep.contains(k));
    assert_eq!(dropped, 2);
    assert_eq!(q.len(), 1);
}

#[test]
fn queue_pops_in_order_then_waits_then_stops() {
    let mut q: WorkQueue<u32> = WorkQueue::new();
    q.push(1);
    q.push(2);
    assert!(matches!(q.pop(), PopOutcome::Item(1)));
    assert!(matches!(q.pop(), PopOutcome::Item(2)));
    assert!(matches!(q.pop(), PopOutcome::Wait));
    q.push(3);
    q.shutdown();
    assert!(matches!(q.pop(), PopOutcome::Item(3)));
    assert!(matches!(q.pop(), PopOutcome::ShutDown));
}

#[test]
fn queue_retain_keeps_order() {
    let mut q: WorkQueue<u32> = WorkQueue::new();
    for i in 0..10 {
        q.push(i);
    }
    assert_eq!(q.retain(|v| v % 3 == 0), 6);
    let mut out = Vec::new();
    while let PopOutcome::Item(v) = q.pop() {
        out.push(v);
    }
    assert_eq!(out, vec![0, 3, 6, 9]);
}

#[test]
fn failed_key_is_not_re_enqueued() {
    let mut state = FetchState::new();
    let key = TileKey { x: 1, y: 2, z: 3 };
    assert_eq!(state.request(key), TileRequest::Enqueue);
    state.fetch_failed(key);
    assert!(state.is_failed(key));
    assert!(!state.is_in_flight(key));

    let result = state.request(key);
    assert_eq!(result, TileRequest::Suppressed);
    assert!(!state.is_in_flight(key));

    state.clear_failed();
    assert!(state.no_failures());
    assert_eq!(state.request(key), TileRequest::Enqueue);
}

#[test]
fn pipeline_requests_follow_the_tile_lifecycle() {
    let mut state = FetchState::new();
    let a = TileKey { x: 4, y: 5, z: 6 };
    let b = TileKey { x: 7, y: 8, z: 9 };
    assert_eq!(state.request(a), TileRequest::Enqueue);
    assert_eq!(state.request(a), TileRequest::Pending);
    state.decode_finished(a, true);
    assert_eq!(state.request(a), TileRequest::Ready);
    assert!(!state.is_in_flight(a));

    assert_eq!(state.request(b), TileRequest::Enqueue);
    state.decode_finished(b, false);
    assert_eq!(state.request(b), TileRequest::Suppressed);
    assert!(state.is_failed(b));
    assert!(state.is_ready(a));

    // a failed fetch is remembered too, and cleared on demand
    let c = TileKey { x: 1, y: 1, z: 1 };
    assert_eq!(state.request(c), TileRequest::Enqueue);
    state.fetch_failed(c);
    assert_eq!(state.request(c), TileRequest::Suppressed);
    state.clear_failed();
    assert!(state.no_failures());
    assert_eq!(state.request(c), TileRequest::Enqueue);
}

#[test]
fn cancel_all_except_requeues_only_unwanted_keys() {
    let mut state = FetchState::new();
    let mut q: WorkQueue<TileKey> = WorkQueue::new();
    let keys: Vec<TileKey> = (0..4).map(|i| TileKey { x: i, y: i, z: 4 }).collect();
    for k in &keys {
        assert_eq!(state.request(*k), TileRequest::Enqueue);
        q.push(*k);
    }
    let mut keep = KeySet::new();
    keep.insert(keys[1]);
    keep.insert(keys[3]);
    let dropped = state.cancel_all_except(&mut q, &keep);
    assert_eq!(dropped, 2);
    assert_eq!(q.len(), 2);
    assert!(!state.is_in_flight(keys[0]));
    assert!(state.is_in_flight(keys[1]));
    assert!(!state.is_in_flight(keys[2]));
    assert!(state.is_in_flight(keys[3]));
    assert_eq!(state.request(keys[0]), TileRequest::Enqueue);

    // nothing dropped: the in-flight set is left alone
    let dropped = state.cancel_all_except(&mut q, &keep);
    assert_eq!(dropped, 0);
    assert!(state.is_in_flight(keys[0]));
}

#[test]
fn keyset_behaves_as_a_set() {
    let mut s = KeySet::new();
    let k = TileKey { x: 1, y: 1, z: 1 };
    assert!(s.is_empty());
    assert!(s.insert(k));
    assert!(!s.insert(k));
    assert!(s.contains(k));
    assert!(!s.contains(TileKey { x: 1, y: 1, z: 2 }));
    assert!(s.remove(k));
    assert!(!s.remove(k));
    assert!(s.is_empty());
    for i in 0..5 {
        s.insert(TileKey { x: i, y: 0, z: 0 });
    }
    s.retain(|t| t.x % 2 == 1);
    assert!(s.contains(TileKey { x: 1, y: 0, z: 0 }));
    assert!(!s.contains(TileKey { x: 2, y: 0, z: 0 }));
    s.clear();
    assert!(s.is_empty());
}

#[test]
fn always_returns_a_tile() {
    let src = SyntheticTileSource::new();
    for key in [
        TileKey { x: 0, y: 0, z: 0 },
        TileKey { x: 1234, y: 5678, z: 12 },
        TileKey { x: u32::MAX, y: u32::MAX, z: 18 },
    ] {
        let buf = src.tile_pixels(key);
        assert_eq!(buf.pixels.len(), 256 * 256, "{key:?}");
    }
}

#[test]
fn distinct_keys_yield_distinct_tiles() {
    let src = SyntheticTileSource::new();
    let a = src.tile_pixels(TileKey { x: 0, y: 0, z: 5 });
    let b = src.tile_pixels(TileKey { x: 1, y: 0, z: 5 });
    assert_eq!((a.width, a.height), (256, 256));
    assert_eq!((b.width, b.height), (256, 256));
    // interior fill colours differ
    assert_ne!(a.pixels[10 * 256 + 10], b.pixels[10 * 256 + 10]);
}

#[test]
fn tile_size_override_takes_effect() {
    let src = SyntheticTileSource::new().with_tile_size(128);
    assert_eq!(src.tile_size(), 128);
    let img = src.tile_pixels(TileKey { x: 0, y: 0, z: 0 });
    assert_eq!(img.width, 128);
    assert_eq!(img.height, 128);
}

#[test]
fn synthetic_pixels_have_border_cross_and_fill() {
    let src = SyntheticTileSource::new().with_tile_size(8);
    let key = TileKey { x: 1, y: 2, z: 4 };
    let t = src.tile_pixels(key);
    let border = Rgba8 { r: 255, g: 255, b: 255, a: 100 };
    let cross = Rgba8 { r: 255, g: 255, b: 255, a: 60 };
    let channel = |v: u32| (40 + (v & 0x7f)) as u8;
    let fill = Rgba8 { r: channel(73), g: channel(2 * 151), b: channel((1 ^ 2) * 199), a: 255 };
    assert_eq!(fill, Rgba8 { r: 113, g: 86, b: 125, a: 255 });
    assert_eq!(t.pixels[0], border);
    assert_eq!(t.pixels[7 * 8 + 3], border);
    assert_eq!(t.pixels[4 * 8 + 2], cross);
    assert_eq!(t.pixels[2 * 8 + 4], cross);
    assert_eq!(t.pixels[1 * 8 + 1], fill);
    // below zoom 4 there is no cross
    let low = src.tile_pixels(TileKey { x: 1, y: 2, z: 3 });
    assert_eq!(low.pixels[4 * 8 + 2], fill);
    assert_eq!(src.max_zoom(), 18);
    assert_eq!(src.min_zoom(), 0);
}

#[test]
fn pixels_from_rgba_pads_short_buffers() {
    let data = vec![1, 2, 3, 4, 5, 6, 7, 8, 9];
    let b = pixels_from_rgba(3, 1, &data);
    assert_eq!(b.pixels.len(), 3);
    assert_eq!(b.pixels[0], Rgba8 { r: 1, g: 2, b: 3, a: 4 });
    assert_eq!(b.pixels[1], Rgba8 { r: 5, g: 6, b: 7, a: 8 });
    assert_eq!(b.pixels[2], Rgba8 { r: 0, g: 0, b: 0, a: 0 });
}

#[test]
fn decode_png_roundtrips() {
    let mut img = image::RgbaImage::new(3, 2);
    img.put_pixel(0, 0, image::Rgba([10, 20, 30, 40]));
    img.put_pixel(2, 1, image::Rgba([200, 100, 50, 255]));
    let mut bytes: Vec<u8> = Vec::new();
    img.write_to(&mut std::io::Cursor::new(&mut bytes), image::ImageFormat::Png)
        .expect("encode");
    let buf = decode_png_to_buffer(&bytes).expect("decode");
    assert_eq!(buf.width, 3);
    assert_eq!(buf.height, 2);
    assert_eq!(buf.pixels[0], Rgba8 { r: 10, g: 20, b: 30, a: 40 });
    assert_eq!(buf.pixels[5], Rgba8 { r: 200, g: 100, b: 50, a: 255 });
    assert_eq!(buf.pixels[1], Rgba8 { r: 0, g: 0, b: 0, a: 0 });
}

#[test]
fn decode_rejects_garbage() {
    assert!(decode_png_to_buffer(b"definitely not a png").is_none());
    assert!(decode_png_to_buffer(&[]).is_none());
}

#[test]
fn neighbouring_synthetic_tiles_differ() {
    let src = SyntheticTileSource::new().with_tile_size(8);
    let inner = 1 * 8 + 1;
    let here = src.tile_pixels(TileKey { x: 15, y: 3, z: 4 }).pixels[inner];
    // east of the last column wraps to column 0
    let east = src.tile_pixels(TileKey { x: 0, y: 3, z: 4 }).pixels[inner];
    let south = src.tile_pixels(TileKey { x: 15, y: 4, z: 4 }).pixels[inner];
    assert_ne!(here.r, east.r);
    assert_ne!(here.g, south.g);
    let mid = src.tile_pixels(TileKey { x: 6, y: 3, z: 4 }).pixels[inner];
    let mid_east = src.tile_pixels(TileKey { x: 7, y: 3, z: 4 }).pixels[inner];
    assert_ne!(mid.r, mid_east.r);
}

#[test]
fn distinct_tiles_get_distinct_paths() {
    let cache = FileTileCache::new("/tmp/c");
    let a = cache.path_for(TileKey { x: 1, y: 23, z: 4 });
    let b = cache.path_for(TileKey { x: 12, y: 3, z: 4 });
    let c = cache.path_for(TileKey { x: 12, y: 3, z: 41 });
    assert_eq!(a, "/tmp/c/4/1/23.png");
    assert_eq!(b, "/tmp/c/4/12/3.png");
    assert_ne!(a, b);
    assert_ne!(b, c);
    let trailing = FileTileCache::new("/tmp/c/");
    assert_eq!(trailing.path_for(TileKey { x: 1, y: 23, z: 4 }), a);
}

#[test]
fn osm_tile_settings_defaults_and_overrides() {
    let s = OsmTileSettings::new();
    assert_eq!((s.tile_size(), s.min_zoom(), s.max_zoom()), (256, 0, 19));
    let s = s.with_zoom_range(3, 14).with_tile_size(512);
    assert_eq!((s.tile_size(), s.min_zoom(), s.max_zoom()), (512, 3, 14));
}

#[test]
fn politeness_wait_is_the_rest_of_the_interval() {
    assert_eq!(politeness_wait_nanos(100_000_000, 300), 200_000_000);
    assert_eq!(politeness_wait_nanos(300_000_000, 300), 0);
    assert_eq!(politeness_wait_nanos(60_000_000_000, 300), 0);
    assert_eq!(politeness_wait_nanos(0, 0), 0);
    assert_eq!(politeness_wait_nanos(0, u64::MAX), u64::MAX as u128 * 1_000_000);
}
