# shelly-rpc

A client library for Shelly Gen2+ smart devices and the Shelly Cloud API,
with the logic of its command-line client `shellyctl`, verified with Verus.

## Layout

- `src/` — the verified library. Every function carries a `requires` /
  `ensures` contract and Verus proves it, except the small wrappers marked
  `#[verifier::external_body]` around calls into outside crates and std,
  whose contracts are taken as given from those crates' sources and docs.
  - `rpc/` — request paths for each component family and the check of RPC
    reply bodies; `device` — a device's base and request URLs, the checks
    on its replies, and the JSON bodies of `Script.Create` and
    `Script.PutCode`.
  - `cloud` — Cloud API URLs, form bodies and the push-notification scene
    script; `cloud_config` — the credentials file and the `cloud` KVS entry.
  - `json_text`, `login` — JSON string escaping and key lookup,
    percent-encoding and decoding, query strings, OAuth callback requests
    and access tokens.
  - `chunked`, `log_stream` — the debug log stream: address, request,
    header end and an incremental chunked-transfer decoder.
  - `upload`, `commands` — script upload chunking, the decisions and
    report lines of the device commands, with the steps of a script's life
    and of the `status` command.
  - `minify` — script minification: SWC's steps, each one trusted call, run
    in order, with located parse errors and the failure messages.
  - `util`, `text` — buffer writers and text helpers shared by the above.
- `tests/` — tests of the library on concrete values.
- `app/` — the `shellyctl` program: argument parsing, the async HTTP device
  handle over `reqwless`, `serde` reply types, file and network I/O, mDNS
  discovery and self-update.

The proof functions named `lemma_*_round_trip`, `lemma_feed_split`,
`lemma_feed_stream`, `lemma_url_decode_encode`, `lemma_form_decode_encode`,
`lemma_unescape_escape`, `lemma_extract_escaped_member`,
`lemma_trailing_slashes_agree`, `lemma_escape_text_bytes`,
`lemma_scene_script_fields`, `lemma_script_steps_clean_up` and
`lemma_chunk_fits_budget` state the
properties that tie the functions together.
