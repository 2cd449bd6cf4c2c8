# mediaexplorer_gui

The logic of MSX Media Explorer, a desktop browser for MSX floppy, hard-disk
and tape images, as a library whose behaviour is stated in Verus contracts and
proved.

- `src/` — the verified library, one module per concern: file-name rules
  (`names`, `paths`), the file tree's filter and keyboard navigation
  (`tree_filter`, `kept_paths`, `tree_nav`, `selection`, `browse`, `shortcuts`),
  directory facts and the File Info report (`info`, `fileinfo`), the hex
  view's geometry, text, selection and data inspector (`hexlayout`, `hexui`,
  `inspector`), the sector viewer and the disk-usage map (`sector_view`,
  `diskmap`), fixed-width rows and descriptions (`render`), multi-volume
  images and companion files (`volumes`, `state`), extraction plans
  (`extract`), tapes (`tape`), search stepping (`disk_search`), settings and
  the View menu (`settings`, `menu`, `views`, `i18n`), the update check
  (`update`), and character-sequence helpers (`text`). Laws that span functions are public proof functions named
  `lemma_*`.
- `tests/` — tests on concrete values.
- `app/` — the program around the library: the settings store (RON), the
  network side of the update check, and the parts that compute in floating
  point (human-readable sizes, press-and-hold timing).
