# rift

The core of a tiling window manager: layouts, window bookkeeping and window
rules. Every function of the library states what it does in a contract that
Verus proves.

## Layout

- `src/` is the library.
  - `model/tree`: the forest of layout nodes, on which tree layouts are built.
  - `layout_engine/systems`: the systems that arrange windows. `traditional`
    (trees of containers), `stack`, `master_stack` and `floating` share the
    forest; `scrolling` arranges columns in a strip.
  - `layout_engine/workspaces`: which layout a workspace uses on which display.
  - `model/window_store`: which windows exist and where they belong.
  - `model/app_rules`: what rules decide about a window.
  - `model/server`: what is handed out about workspaces, windows and displays.
- `app/` is ordinary Rust around it: frames, ratios and sizes in floating point,
  drawing, and the wire format.
- `tests/` runs the library.

Each part has a `view` (or a model beside the code) that says what its state is
and what each operation makes of it. The executable code is proved to do just
that. `laws` and its neighbours state what holds across operations.

Sizes are floating-point quantities, which the library does not compute with. It
carries them as bits, hands out decisions (what to resize, which window to show),
and logs what happens to the sizes of nodes as `SizeChange` events, which `app/`
replays.

Calls into `slotmap`, `regex` and parts of `std` go through small functions whose
contracts are trusted; their doc comments say what is claimed of the outside
function.
