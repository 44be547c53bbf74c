# archetype_browser

The verified core of the Archetype browser and its renderer runtime.

`src/` is the library, verified with Verus. Its modules:

- `text`, `url`, `types`, `random`: strings and UTF-8, URLs (through the `url`
  crate), page and navigation ids, durations, random bytes.
- `protocol` (`codec`, `router`, `transport`): the framed renderer protocol,
  the version and capability handshake, request/response correlation with
  cancellation and expiry, and bounded in-memory transport.
- `dom`, `html`, `page`, `forms`: the document tree, HTML parsing (through
  `html5ever`), titles, form extraction and submission encoding, links,
  stylesheet discovery and diagnostics.
- `css`, `style`, `paint`: CSS tokens (through `cssparser`), custom property
  resolution, selector matching, specificity and the cascade order, keyword
  properties of the computed style, colours and blending.
- `cookies`, `profile_cookies`: the cookie jar and its `SameSite` policy (through
  `cookie_store`, `cookie` and `psl`), and the sealed profile cookie state
  (through `chacha20poly1305` and `sha2`).
- `net`, `page_load`, `broker`, `runtime`, `supervisor`: load limits and
  redirects, a page's resource budget, the resource broker, the runtime's
  request handling, and the supervisor's pending renders.
- `session`, `chromium`, `shell`, `store`, `i18n`, `acceptance`: navigation
  history, tab event generations, address parsing and internal pages, stored
  records, localisation and acceptance outcomes.

`app/` is the program around it: HTTP and file loading (`reqwest`), the JSON
wire format (`serde_json`), the runtime's serve
loop and the supervisor's process and threads. `tests/` runs the library.
