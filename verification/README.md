# marshmallow

A photo-culling workflow: scan source folders for photos and videos, review
each item (keep / trash / undecided), and copy the keepers into a target
folder, with a background decode cache and a prerendered thumbnail cache for
fast review.

## Layout

- `src/` is the library, written in Verus: every function carries a
  contract and is proved against it.
  - `path`, `text`: Unix path rules and string helpers on character
    sequences.
  - `media`: which file extensions are photos or videos.
  - `project`, `recent`, `scan`: the project model, its counts, scanning
    results into sorted items, and merging a re-scan with earlier decisions.
  - `review`, `setup`: the review session (decide, undo, move, jump, what to
    decode ahead) and the setup screen's state.
  - `copy`: destination paths, collision handling, and the copy run's plan
    and tally.
  - `decode`: the decoded-image cache (over the `lru` crate), the
    look-ahead window, display sizes, JPEG scaling factors, orientation and
    the decode of a file's bytes for display.
  - `prerender`: cache file names and the jobs of a prerender run.
  - `time`: timestamps (over `chrono`).
- Kept files are copied to `<target>/<source name>/<relative path>`. The
  source name is made safe for a folder in a way that keeps different
  names apart: ASCII letters, digits, `-` and `.` stay as they are, `_` is
  doubled, and any other character becomes `_` and the six hexadecimal
  digits of its code point (`NO NAME` becomes `NO_000020NAME`,
  `EOS_DIGITAL` becomes `EOS__DIGITAL`).
- `tests/` runs the library on concrete values.
- `app/` is the GTK application around the library: windows, threads,
  channels, file I/O, JSON files and the system JPEG and HEIF decoders.

Calls into outside crates go through small trusted wrappers in `src/`, each
with a doc comment saying what its contract claims of the outside code.
