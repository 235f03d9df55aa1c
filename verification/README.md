# seam_explorer

Seam Explorer shows the architectural seams of a codebase: the boundaries
between the communities of a Graphify `graph.json` export, ranked by how many
call edges cross them, with a verdict for each seam and a tracer for the call
path between two components.

The library under `src/` is written in Verus and verified:

- `ingest`, `json`: reading a `graph.json` document into a model, keeping
  structural `EXTRACTED` links between known nodes and reporting the rest.
- `model`, `graph`: the model over a petgraph `StableGraph`.
- `seams`: seam detection and ranking, with its laws (ranked most crossings
  first, one entry per community pair, crossings adding up to the
  cross-community edges).
- `verdict`: the seam detail (bridges, crossing counts, verdict, reasons) and
  the call-cycle test through strongly connected components.
- `call_path`: the shortest directed call path and the seams it crosses.
- `load`, `startup`, `app`: loading a graph into the explorer's state, the
  banners, and the command-line graph path.
- `panels`, `graph_view`, `trace`, `keyboard`, `context_menu`, `settings`:
  the decisions behind the panels, the canvas, the trace gesture, the keys,
  the node context menu and the settings store.
- `text`, `paths`: text helpers and filesystem paths as text.
- `error`: command errors and the trace command.

`app/` is the desktop window (egui and eframe): drawing, the view transform,
file dialogs and reading files, the settings file, and launching the editor.
