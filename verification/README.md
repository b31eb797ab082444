# hypertile

Hyprland-style tiling for terminal interfaces, verified with Verus.

- `src/` is the verified library:
  - `input` — backend-agnostic key and mouse events, modifier sets.
  - `geometry` — cell rectangles (built, intersected and tested through
    ratatui's `Rect`), saturating translation.
  - `tree` — the layout tree of panes and splits, pane paths, id checks.
  - `layout` — the id and geometric orders of pane rectangles, sorting and
    searching them.
  - `state` — `HypertileState`: the tree, the focused pane, the pane path
    index and the cached layout, with its invariant.
  - `split_hit` — finding the split border under the mouse.
  - `mouse` — what presses, drags, releases and moves decide.
  - `workspace` — `WorkspaceRuntime`, a tab manager around runtimes.
  - `terminal` — crossterm key and mouse events as this crate's events.
- `tests/` exercises the library.
- `app/` holds the glue that needs floating point or names crossterm's
  mouse event type: ratatui conversions, the split share division, and the
  crossterm mouse adapter.

Split shares are `f32` values; the library carries their bits
(`SplitRatio`, `RatioDelta`) and does no arithmetic with them. Dividing an
area between the children of a split is left to the code that uses the
library (it is not part of this crate): it hands `compute_layout` the pane
rectangles, each inside the area, and `split_at` the split areas.
