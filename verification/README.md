# dcreel

The logic of DCreel, a Windows desktop organiser whose "fences" are boxes on
the desktop that show real folders, written in Verus: the functions in
`src/` carry contracts that Verus proves, except the few that call into std
or an outside crate, whose contracts Verus takes on trust (each is marked `#[verifier::external_body]`
and its doc comment says what is claimed):

- `text::string_from_chars` (collecting characters into a `String`);
- `ids::random_uuid_text` (`uuid::Uuid::new_v4`, as hyphenated text);
- `paths::path_extension`, `paths::path_with_extension`,
  `paths::path_file_stem`, `paths::path_file_name` (`std::path::Path`);
- `logging::flush` (`log::logger().flush()`);
- `listing::lowercase` (`str::to_lowercase`), whose result is named
  `listing::lowercase_of`.

## Layout

- `src/` — the verified library.
  - Geometry and layout: `geometry`, `interaction` (moving, resizing and
    snapping fences), `grid` (the icon grid, scrolling, hit testing),
    `display` (monitors and groups of fences), `occupancy` and `separation`
    (moving groups and fences off each other after a display change),
    `popup_layout`, `overlays`, `pixels`.
  - Input: `hotkey` (parsing chords, the chord tracker), `fence_keys`,
    `selection`, `messages`.
  - State and protocol: `ipc`, `host`, `models`, `notifications`,
    `transfers`, `listing`, `names`, `logging`, `paths`, `ids`, `text`.
- `tests/` — tests of the library on concrete values.
- `app/` — the program around the library: file system access, logging to
  disk, serialisation and the values that are computed in floating point.

Laws of the library are public proof functions named `law_…`; they state,
for all inputs, properties that relate several functions or calls.
