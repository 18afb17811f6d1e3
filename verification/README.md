# vlfo

Video LFO: ISF shaders whose inputs are driven from Pure Data over OSC. This
crate is the verified core of the program, written in Verus; `app/` is the
command-line program around it.

## Layout

- `src/graph.rs`, `src/nodes.rs`, `src/lexical.rs`, `src/codegen.rs`: `.vlfo`
  node graphs, parsed and compiled to an ISF shader.
- `src/isf.rs`, `src/json.rs`: ISF headers (JSON read by serde_json) and their
  inputs; `src/layout.rs`: the uniform block layout; `src/glsl.rs`: the GLSL
  450 shader handed to the GPU back end.
- `src/params.rs`: the parameter store behind the uniform block (set, read
  back, one-shot events, per-frame builtins, reload).
- `src/osc.rs`: OSC datagrams (decoded by rosc) applied to the store.
- `src/floatbits.rs`: `f32`/`f64` conversions on bit patterns.
- `src/hot.rs`, `src/frames.rs`, `src/ndi.rs`, `src/cli.rs`: hot-reload
  polling, frame buffers, NDI helpers, command-line text.
- `tests/`: tests of the library. `app/`: the `vlfo` command (inputs, compile,
  nodes, ndi-find, ndi-grab) with file, network and NDI runtime access.

Every public function states its result in its contract; the laws of the
library are the public `lemma_*` proof functions.
