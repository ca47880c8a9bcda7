# oa_shell

The logic of the Overlooked Arcade shell, verified with Verus: ROM header
rules and candidate hashes, libretro-database DAT parsing and merging, ROM
identification decisions, title normalization, the media database model
(slots, pins, manual and synced variants, `oa-media://` requests), platform
art, IPS/BPS/UPS patching, ScummVM detection, the per-system registry, theme
layers, shader preset overlay and content-pack bookkeeping.

Layout:

- `src/` — the verified library, one module per area; every public function
  states its result in `ensures`, and the laws that span functions are public
  proof functions named `law_*`.
- `tests/` — tests of the library on concrete values.
- `app/` — the unverified layer around it: reading and writing the JSON,
  YAML and TOML files, walking folders, running ScummVM, decoding images and
  the floating-point title similarity score.
