# slint-mapping

The decision-making core of a slippy-map widget for Slint, written in
Verus and proved against its contracts.

- `src/` — the verified library:
  - `viewport` — which tiles to draw around the camera tile, with
    antimeridian wrap-around and polar clipping;
  - `prefetch`, `prefetch_cli` — tile ranges and keys for bulk cache
    warming, the per-tile outcome, and the tool's argument parser;
  - `sources::osm` — request bookkeeping of the HTTP tile source
    (ready / failed / in-flight keys, cancellation);
  - `sources::wasm_osm` — the browser source's bounded LRU tile memory
    (over the `lru` crate) and its bookkeeping;
  - `sources::queue`, `sources::keyset` — the work queue and key set
    they use;
  - `sources::util`, `sources::synthetic`, `sources::file`, `cache` —
    URL templates, PNG decoding (over the `image` crate), synthetic
    test tiles, on-disk tile paths;
  - `routing`, `routers::osrm` — route requests, maneuvers, OSRM URLs
    and the interpretation of OSRM responses;
  - `text` — decimal rendering, substitution and joining over
    `Seq<char>`.
- `app/` — the runtime around it: Web Mercator floating-point math,
  Slint images, worker threads, HTTP, files, JSON, XMLHttpRequest and
  the Android JNI hook.
- `tests/` — executable tests of the library.

Laws of the library are public proof functions named `law_*`.
