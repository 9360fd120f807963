# qs_ui

The verified core of a file manager's views: which rows exist in a frame, where they are, what is
drawn of them and what is said of them to a screen reader.

A frame is a function of plain values. The library decides; whoever calls it owns the window, the
font stack, the glyph atlas and the clock.

- `fenwick`, `scroll`, `recycler`: row heights, the scroll position and the rows in view. However
  long a corpus is, a frame lays out about as many rows as fit on screen.
- `row_source`, `selection`, `mark`: what a row is, which rows are selected, and what the
  application knows of a row beyond its source.
- `density`, `motion`: row heights under text scaling, and animation under the user's motion
  preference.
- `material`, `scene`: surfaces made of layers, what they compile to, and the slabs and lamps that a
  lit scene is made of.
- `row`: a frame of rows, of a column or of a grid, in the order it is drawn.
- `column_layout`: columns side by side.
- `a11y`: the accessibility tree and its audit.
- `units`, `text`: numbers and strings.

Every real quantity is a whole number of millionths (`units::Micros`), so that sums are exact and
products round down. What takes a power, an exponential or a cosine is handed in by the caller;
`app/` shows how, and holds the conversions from and to floating point, the serde copies of authored
materials and the bridge to AccessKit.
