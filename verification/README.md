# anime-dm-addons

Source addons for the anime-dm host (FrenchStream, Wiflix, Voir-Anime): the
scraping, decoding and selection logic of each site, verified with Verus.

- `src/` is the verified library. `text` holds string operations with their
  specifications, `outside` the calls into `regex`, `scraper`, `base64`,
  `serde_json` and the parts of `std` without a vstd specification, `api` the
  catalogue values, `json` a parsed JSON value, `abi` the settings store, and
  `common` the extractors the sites share (DoodStream, VOE, packed scripts,
  encoded player lists). `frenchstream`, `wiflix` and `voiranime` hold each
  site's logic: request builders, and functions from fetched pages to
  catalogue values. Each entry point that needs the network is split into the
  requests to make and what to compute from the answers.
- `app/` is the unverified shell: the C ABI and the Extism plugin exports,
  the HTTP round trips, the serde forms of the values, and the one piece that
  needs floating point (Voir-Anime's episode numbers).
- `tests/` runs the library on concrete pages and payloads.
