# flat

Project multi-dimensional data onto the flat textual plane.

A dataset of data points (tuples) is looked at through a view, and a widget lays the view out
as a grid of text cells: a frame of the display dimensions on the left, and the aggregated
values rendered as bars of markers on the right.

```text
Size      Animal  |Sum(Count)
medium  - shark   |**
small   ┘
medium  - tiger   |***
small   ┘
large   - whale   |*
```

## Layout

- `src/` is the library, written in Verus and verified: schemas, datasets and views; the
  layout of the frames of the dag-chart (`dag`), path-chart (`path`) and histogram
  (`histogram`, `bins`) widgets and the cells they share (`frame`); the split of a
  histogram's keys into bins of equal width (`histogram`); the grid of cells and its
  materialisation as text (`render`); and the abbreviation of headings (`abbreviate`).
  Contracts state each function's result exactly, and public proof functions (`law_*`) state
  what holds of the library as a whole (for instance, that values are only ever scaled down,
  that the text of an overflowing cell always fits the columns it spans, that a shared
  part of a dag-chart is written once, on the middle row of its run, or that every key of a
  histogram lies in exactly one of its bins).
- `app/` holds the widgets themselves: they read a view, aggregate the values of its data
  points (floating-point numbers, which the library does not hold), and hand the library plain
  values to lay out.
- `tests/` runs the library on concrete values.
