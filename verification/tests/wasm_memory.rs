use slint_mapping::sources::osm::TileRequest;
use slint_mapping::sources::util::{PixelBuffer, Rgba8};
use slint_mapping::sources::wasm_osm::{response_tile, TileMemory, WasmFetchState, TILE_CACHE_CAPACITY};
use slint_mapping::TileKey;

fn tile(tag: u8) -> PixelBuffer {
    PixelBuffer { width: 1, height: 1, pixels: vec![Rgba8 { r: tag, g: 0, b: 0, a: 255 }] }
}

fn tag(b: &PixelBuffer) -> u8 {
    b.pixels[0].r
}

fn key(x: u32) -> TileKey {
    TileKey { x, y: 0, z: 9 }
}

#[test]
fn memory_serves_what_was_put() {
    let mut m = TileMemory::new(3);
    assert!(m.put(key(1), tile(10)).is_none());
    assert_eq!(m.get(key(1)).map(tag), Some(10));
    assert_eq!(m.peek(key(1)).map(tag), Some(10));
    assert!(m.get(key(2)).is_none());
    // replacing returns the old tile
    assert_eq!(m.put(key(1), tile(11)).map(|b| tag(&b)), Some(10));
    assert_eq!(m.peek(key(1)).map(tag), Some(11));
}

#[test]
fn full_memory_evicts_least_recently_used() {
    let mut m = TileMemory::new(2);
    m.put(key(1), tile(1));
    m.put(key(2), tile(2));
    // touching 1 makes 2 the least recently used
    assert!(m.get(key(1)).is_some());
    m.put(key(3), tile(3));
    assert!(m.peek(key(2)).is_none());
    assert_eq!(m.peek(key(1)).map(tag), Some(1));
    assert_eq!(m.peek(key(3)).map(tag), Some(3));
    // peek does not promote: 1 is now the least recently used
    assert!(m.peek(key(1)).is_some());
    m.put(key(4), tile(4));
    assert!(m.peek(key(1)).is_none());
    assert!(m.peek(key(3)).is_some());
}

#[test]
fn wasm_state_request_flow() {
    let mut st = WasmFetchState::new();
    let k = key(7);
    assert_eq!(st.request(k), TileRequest::Enqueue);
    assert_eq!(st.request(k), TileRequest::Pending);
    assert!(st.cached(k).is_none());
    st.loaded(k, Some(tile(42)));
    assert_eq!(st.request(k), TileRequest::Ready);
    assert_eq!(st.cached(k).map(tag), Some(42));
}

#[test]
fn wasm_failed_tile_is_suppressed() {
    let mut st = WasmFetchState::new();
    let a = key(1);
    let b = key(2);
    assert_eq!(st.request(a), TileRequest::Enqueue);
    st.loaded(a, None);
    assert_eq!(st.request(a), TileRequest::Suppressed);
    assert_eq!(st.request(b), TileRequest::Enqueue);
    st.send_failed(b);
    assert_eq!(st.request(b), TileRequest::Suppressed);
}

#[test]
fn wasm_memory_is_bounded_by_capacity() {
    let mut st = WasmFetchState::new();
    let n = TILE_CACHE_CAPACITY as u32;
    for x in 0..=n {
        assert_eq!(st.request(key(x)), TileRequest::Enqueue);
        st.loaded(key(x), Some(tile((x % 251) as u8)));
    }
    // the first tile was the least recently used when the last arrived
    assert!(st.cached(key(0)).is_none());
    assert!(st.cached(key(1)).is_some());
    assert!(st.cached(key(n)).is_some());
    // asking again for the evicted tile queues it anew
    assert_eq!(st.request(key(0)), TileRequest::Enqueue);
    assert_eq!(TILE_CACHE_CAPACITY, 256);
}

#[test]
fn response_tile_needs_a_2xx_status_and_a_body() {
    let mut img = image::RgbaImage::new(2, 1);
    img.put_pixel(1, 0, image::Rgba([9, 8, 7, 6]));
    let mut bytes: Vec<u8> = Vec::new();
    img.write_to(&mut std::io::Cursor::new(&mut bytes), image::ImageFormat::Png)
        .expect("encode");
    let ok = response_tile(200, Some(&bytes)).expect("decoded");
    assert_eq!((ok.width, ok.height), (2, 1));
    assert_eq!(ok.pixels[1], Rgba8 { r: 9, g: 8, b: 7, a: 6 });
    assert!(response_tile(299, Some(&bytes)).is_some());
    assert!(response_tile(404, Some(&bytes)).is_none());
    assert!(response_tile(0, Some(&bytes)).is_none());
    assert!(response_tile(300, Some(&bytes)).is_none());
    assert!(response_tile(200, None).is_none());
    assert!(response_tile(200, Some(b"not a png")).is_none());
}
