# dynamic_diagram

Animated network diagrams from data. A scene is a timeline document (JSON):
nodes, lines, packets, texts, polylines and paths whose properties are
constants or keyframes. The program renders a scene to SVG, PNG, a frame
sequence, the kitty terminal graphics protocol, or a live web view.

- `src/` is the verified library: timeline validation and stepping, the
  compact authoring format's compilation into a timeline, the simulated
  protocol stories, text escaping and validity, base64 and kitty framing,
  PNG encoding and the frame cache, icon tables, and the program's routing
  and export decisions.
- `app/` is the program: argument handling, files, terminal and network I/O,
  and the floating-point layout, SVG drawing and rasterization.

At run time the program reads `sims/<name>.json` for named simulations,
`assets/*.txt` for the icon tables (`DDA_ASSETS` to move them) and
`assets/fonts/*.ttf` for fonts (`DDA_FONTS`), falling back to system fonts.
