# UI Viewer

A desktop tool that shows the layout of Android screens: a screenshot, the hierarchy of UI
elements behind it, their properties, and an XPath that singles an element out.

The library under `src/` holds what the tool knows and decides, and is verified with Verus:

- `tree`, `xml`, `xpath`, `icon`, `rows`: the hierarchy as a tree, reading it from a dump,
  generating an XPath, naming an icon, and listing the rows of the tree view.
- `geometry`, `text`, `numerals`, `bytes`: coordinates, texts, numbers and fingerprints.
- `adb`, `http`, `u2`, `capture`: the commands for a device and what they print, requests to
  the automation server, its start, and storing a capture.
- `viewer`, `files`, `devices`, `captures`, `monitor`, `pointer`: the state of the viewer and
  how it changes.
- `platform`: the functions of the standard library and of other crates that are taken on
  trust.

A coordinate is a single-precision number, held by its sort key. Reading, measuring and
rounding such numbers is left to functions that the caller hands in.

The program under `app/` draws the window, runs `adb`, talks to the server and reads and
writes files.
