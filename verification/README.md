# abgen_serve

The verified core of `abgen-serve`, a live-translate proxy that answers the
asset-bundle CDN routes (`GET /<vN>/<entity>/<hash>_<platform>`,
`GET /manifest/<entity>_<platform>.json`, `POST /entities/versions`) by
building bundles on demand.

`src/` is the library, verified with Verus:

- `route`, `http`: routing of requests, request-line and header parsing,
  status reasons and response framing.
- `versions`: the pointers of a versions request (JSON through `serde_json`).
- `index`: the first-writer-wins index from content hash to owning entity.
- `bundle`: which content item a bundle name names, build options, telemetry
  outcome, and the keys of bundles, locks and manifests.
- `serve`: the serve-from-cache / build / fall-back decisions, one event at a
  time; every request is answered within four events.
- `content`: the order in which a content file is looked for.
- `eviction`: the size cap of the bundle cache, oldest files first.
- `calendar`: civil dates of day numbers and the build timestamp.
- `gpu`: the BC7 mode-6 block layout.
- `text`: character-level string operations with their specifications.

`app/` is the server around it: sockets, threads, files, the catalyst and
the converter, JSON output, and the wgpu encoder.
