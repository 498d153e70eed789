# agent-desktop

A command-line tool with which AI agents observe desktop applications through
their accessibility trees and act on them: click, type, scroll, press keys,
focus windows, read the clipboard, take screenshots, and serve all of this as
MCP tools over stdio.

## Layout

- `src/` — the library, written in Verus and verified. It holds every decision
  the tool makes outside floating-point work: how an accessibility tree is traversed and numbered, what an
  observation records and which elements the process keeps cached for acting
  on them, how it is printed (as a tree, as XML, or as a role distribution),
  how element targets are resolved and which elements a selector picks (through
  xa11y's selector engine), how key names are read, which commands the
  platform runs to focus a window or read the clipboard, how MCP tool calls are
  read and routed, how detections are suppressed and numbered, and how
  downloads are checked. Each public function states its result in its
  contract; the `law_*` proof functions state properties that span functions
  (for example, that a traversal numbers its elements 1, 2, ... and that every
  element lists exactly the elements whose parent it is).
- `app/` — the binary: the command line, the accessibility and input calls
  through `xa11y`, files, processes, the MCP stdio loop, and the floating-point
  image work around the detection model.
- `tests/` — tests of the library's public functions.
