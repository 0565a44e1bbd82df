# suno_core

The logic of a command line client for Suno: reading a session out of pasted
cookie headers and browser profiles, keeping and renewing its token, and
downloading clips with their lyrics. It is written in Verus, and what each
function does is stated in its contract and proved. The calls into other crates
and into `std` are not: what is said of them, where they are wrapped or declared,
is believed.

- `src/cookies.rs`, `src/jar.rs`: sessions in cookie headers and cookie jars
- `src/profiles.rs`, `src/scan.rs`: where browsers keep cookies, and the search
  through them
- `src/auth.rs`, `src/storage.rs`: the stored authentication
- `src/clerk.rs`: the requests for sessions and tokens, and their answers
- `src/export.rs`, `src/download.rs`, `src/filename.rs`: where clips come from
  and how they are saved
- `src/lyrics.rs`: the ID3 frames of title and lyrics
- `src/text.rs`, `src/json.rs`, `src/encoding.rs`, `src/clock.rs`,
  `src/errors.rs`: what the others share
- `app/`: disk, browsers and network around the library
- `tests/`: tests of the library
