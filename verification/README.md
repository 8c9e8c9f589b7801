# eve_wrench

A settings manager for EVE Online: backs up, restores, copies (wholly or by
setting group) and edits the client's account and character settings files,
and exports and imports them as checksummed archives.

* `src/` is the library, verified with Verus: file-name rules, the
  selective copy of setting groups, probe formations in a settings file's
  JSON form, the client's formation limits, aliases, `prefs.ini` switches,
  backup naming and pruning, archive manifests and import planning, and the
  records the app lists. Each public function states its result exactly;
  the laws that tie functions together (what is written reads back, paths
  read the same twice, an import does what its analysis showed, ...) are
  proof functions.
* `tests/` runs the library on concrete values.
* `app/` is the desktop side: file and archive I/O, the settings files'
  binary encoding, and the floating-point work on probe coordinates.
