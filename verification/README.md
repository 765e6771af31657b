# uncloud_web

Verified logic of the Uncloud web client, written in Verus.

- `src/` is the library. Each module holds the decisions and formatters of
  one part of the client (mail, music and playlists, the player, the password
  vault, the settings pages, the OAuth consent page), stated over
  mathematical models and proved. The calls into outside crates (`chrono`,
  `serde_json`, `urlencoding`, `keepass`, and `std` string functions) sit
  behind small trusted wrappers whose doc comments say what is assumed. An
  open KeePass database is seen through what it holds: its entries with their
  fields, the group of each entry, and its groups.
- `app/` is the browser side: reading the page location, the editor's script
  API, random bytes and fresh ids, the element under a pointer, the vault
  file as a plain tree for the pages, and the labels that start from
  floating-point values.
- `tests/` runs the library on concrete values.
