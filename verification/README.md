# pastepaw

The verified core of a clipboard history manager for Windows.

- `src/` is the library, checked by Verus: the clipboard formats it reads and
  writes (`CF_HDROP`, `CF_HTML`, `CF_DIB`/`CF_DIBV5`, UTF-16 text), what a
  clipboard change is recorded as, the list and detail views of clips, pinning,
  the retention policy, folder export and import, the update checker's state
  and the window's slide geometry. Laws that span several functions are public
  proof functions beside the functions they speak of.
- `tests/` runs the library on concrete values.
- `app/` is the application around it: the SQLite store, image files on disk,
  the serde shapes of the window and of bundle files, and the easing curve of
  window slides.
