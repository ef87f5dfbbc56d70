# decay

A terminal UI framework: a tree of nodes, lifecycle stages, stores, a
double-buffered framebuffer that sends only the cells that changed, widgets,
focus and keyboard navigation, and a small binary encoding.

The library in `src/` is verified with Verus. Its contracts are stated over
mathematical views (`CtxView` for the node tree, `TermView` for the
framebuffer, sequences of draw operations for rendering), and its laws are
public proof functions (`base/laws.rs`, `serde.rs`, `ui/focus.rs`, ...).

- `base`: the node tree (`Context`), nodes, input decoding, events, command
  buffers, state, and the decisions of the application loop.
- `term`: the framebuffer and the bytes a flush sends.
- `ui`: widgets, clipping, focus, the frame renderer, the status line.
- `serde`: the binary encoding and its round-trip laws.
- `intro`, `anim`, `text`: the intro's integer parts, animation kinds, text helpers.

`app/` is the part that meets the outside world: raw terminal I/O, the frame
loop's clock, threads, files, and everything computed with floating point
(anchors, tweens, timers, progress values, the intro animation). Values that
the library keeps for those (anchor points, progress values, clocks) are held
as `f32` bit patterns.
