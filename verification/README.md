# xplatform_memory

Finding a running game process, locating a module in its memory map, scanning
the module for byte patterns with wildcards, and patching it.

- `src/` is the library, verified with Verus: the text handling and number
  reading it is built from (`text`, `numparse`), byte patterns and scanning
  (`pattern`), Linux memory maps (`maps`), the process operations
  (`process`), the register set-up and result check of an `mmap` call made in
  another process (`remote_alloc`), window-geometry text (`geometry`) and the
  code written over a game function (`patch`).
- `app/` is the program around it: it reads `/proc`, reads and writes the
  target's memory, drives `ptrace`, runs `xdotool`, does the floating-point
  field-of-view arithmetic, and holds the Windows platform.
- `tests/` exercises the library on concrete inputs.
