# Obel

The core of Obel, a local-first music player and library manager, written
in Verus and proved against its contracts.

- `src/` — the verified library:
  - `sync`, `sync_plan`: player volumes, safe names on FAT32/exFAT, the
    sync plan (grouping by artist and album, stable numbering), what a sync
    copies (by size) and how much room it needs;
  - `library`: incremental scans (which tracks to drop, which files to read
    again), cover art and lyrics file names;
  - `metadata`: a track's metadata from the tags that lofty parses (first
    picture, default MIME type, year and duration);
  - `playback`: the decisions of the audio thread (position, pause, seek,
    device switches, end of track) and their laws over runs of the loop;
  - `discord`: Rich Presence state and activity, the MusicBrainz search
    URL and the cover URL picked from its JSON answer;
  - `youtube`: URL checks, the downloader candidates and which one is
    used, its arguments and messages;
  - `settings`, `schema`, `text`.
- `app/` — the desktop side: SQLite, files, the audio output and its loop,
  Discord IPC, HTTP requests and the downloader process. The volume of the
  audio output is a float and is handled there alone.
- `tests/` — tests of the library on concrete values.
