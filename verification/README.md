# marscat

The MarsCat backend canisters as a Verus-verified library, with the canister glue
around it.

- `src/` is the verified library:
  - `app_server/`: release records, announcements per language (paged newest id
    first), API keys, download rankings, HMAC-signed requests, all guarded by the
    canister's owner;
  - `feed_server/`: users, posts whose images are uploaded in chunks, likes, comments
    and replies, and the `/post/{id}/image/{index}` HTTP route;
  - `sticker_server/`: sticker packs, stickers uploaded in chunks or imported from zip
    archives, and the `/sticker/{id}` and `/{pack_name}/{index}` HTTP routes;
  - `keyed.rs` (an association list viewed as a map), `stable.rs` (stable-memory maps
    and counters), `principal.rs`, `text.rs` (decimal numbers and text helpers) and
    `external.rs` (calls into `imagesize`, `hmac`, `hex`, `zip` and std).
  Each server module has a `laws.rs` with the properties that span its requests;
  `feed_server/counts.rs` states that the comment and reply counts match the comment
  indexes, which every feed request keeps.
- `app/` holds one module per canister: state in a `thread_local!`, the caller and the
  time taken from the IC, Candid copies of the library's types, and the records saved
  to stable memory across upgrades.
- `tests/` runs the library on concrete requests.
