# sketchmotion

The drawing model of SketchMotion, a frame-by-frame animation tool, written
in Verus: each function carries a contract and Verus proves it.

## Layout

- `src/` — the verified library.
  - `color`, `hex`, `palette`: colours, `#RRGGBB[AA]` text, palette library.
  - `layer`, `grid`: RGBA pixel layers, mirrors, quarter turns, resizing.
  - `frame`, `document`, `timeline`, `layer_stack`: frames and tracks of a
    document, the timeline and layer-panel actions, and the invariants they keep.
  - `camera`, `pivot`, `skeleton`, `dirvector`, `image_object`, `vector`,
    `piece`, `tools`: the animation objects a document holds.
  - `raster`: flood fill, magic wand, rectangular lifts, brush stamps.
  - `render`: composition of layers, nearest-neighbour scaling, thumbnails,
    sprite sheets.
  - `history`, `selection`, `rig_panel`: undo/redo in an editing session,
    object selection, and the rig panel's skeleton actions.
  - `object_panels`: the pivot and direction-vector panels' actions.
  - Public `law_*` proof functions state the properties that tie several
    operations together (mirrors undone by mirrors, undo after redo, …).
- `tests/` — executable tests on concrete values.
- `app/` — a small command-line program around the library: file I/O,
  CBOR project files, PNG/JPEG export, and the floating-point parts
  (camera easing, layer opacity, vector geometry, bone angles).
