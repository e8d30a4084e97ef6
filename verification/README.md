# cd-core

The logic of a desktop compact-disc player, verified with Verus.

- `src/` is the library. Its functions carry `requires`/`ensures` contracts
  that Verus proves, except four small wrappers marked
  `#[verifier::external_body]` whose contracts are assumed: `sha1_digest`
  (the `sha1` crate), `push_char` (`String::push`), `is_alphanumeric` and
  `lowercase` (`char::is_alphanumeric`, `char::to_lowercase`). The SHA-1
  digest and the two Unicode character tables stand behind uninterpreted
  spec functions (`sha1_of`, `char_is_alphanumeric`, `char_lowercase`).
  The modules:
  - `discid`: table-of-contents arithmetic, the freedb TOC string, track
    durations and the MusicBrainz DiscID (SHA-1 via the `sha1` crate);
  - `toc`: what the drive's TOC reads mean and the errors reported for them;
  - `json`: a JSON value model with path reads and writes; every write keeps
    object members in key order (as serde_json's maps, with its default
    features, hold them), and removal and lookup laws hold for any member
    list;
  - `library`: the local disc collection (`library.json`) over that model;
  - `mb`, `lrclib`, `netease`, `cover`: request URLs, release choice, lyric
    and cover selection;
  - `base64`, `url`, `text`: encodings and character-level helpers;
  - `commands`, `player`: the decisions of the command layer and the player.
  Proof functions named `law_*` state properties that span several functions
  (a read gives back what a write stored, decoding undoes encoding, ...).
- `tests/` runs the library on concrete values.
- `app/` is the unverified shell: device ioctls, files, HTTP, JSON parsing
  with serde, the libmpv player and the event loop. It asks the library for
  the order of requests, what to accept and what to write; what it decides
  itself rests on floating-point values (durations, positions, ranking
  scores).
