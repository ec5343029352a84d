# lua_bindings

Lua scripting bindings (files, processes, HTTP, JSON, regular expressions,
paths, archives, script inclusion and a few Windows desktop calls), split in two:

- `src/` is the verified library, written in Verus. It holds the rules the
  bindings apply: line splitting of a child's output stream (`lines`), JSON
  table shaping (`json`), path normalisation (`path`), regular-expression
  results and the file-search step (`regex`), archive naming, compression
  presets, ignore rules and the reading of an archive's entries (`archive`), the directory-copy walk (`copy`), HTTP header checks and replies
  (`http`), the script registry (`scripts`), message-box and window-search
  rules (`desktop`), process output decoding (`process`) and character-level
  helpers (`text`).
- `app/` is the program: it creates the Lua runtime, registers the global
  functions, and performs the file, network, process and Windows calls,
  handing plain values to the library and taking plain values back.

`tests/` exercises the library on concrete values.
