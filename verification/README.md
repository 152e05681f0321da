# chaff

Chaff makes a Windows machine look like a malware analyst's sandbox: it plants
registry keys, named mutexes, named pipes and ghost processes under the names
of debuggers, antivirus products and VM guest tools, and removes them again.

- `src/` is the verified library (Verus): the artifact model, which artifacts
  a category applies (every artifact, but only a random sample of the ghost
  processes, through `rand`), applying them step by step, the tally of what
  applying them gave, the registry-removal order, which database copy to use
  (fresh cache, download, bundled copy), registry path splitting, UTF-16 names for the Windows API, ghost file names,
  and the texts of the user interface.
- `app/` is the desktop program (egui window, tray icon, registry, mutexes,
  pipes and processes, the database cache and its download); it performs the
  system calls the library decides on. `app/bundled.rs` holds the artifact
  catalog the program falls back to.
- `tests/` exercises the library on concrete values.
