# audio_sharing

AudioSharing mirrors the audio of one PipeWire node (an application's output
or a device's monitor) to several playback devices at once.

## Layout

- `src/` is the verified library, written in Verus:
  - `state.rs`: the registry of PipeWire objects (nodes, ports, links,
    devices, device routes) that the PipeWire thread keeps;
  - `connection.rs`: how PipeWire's properties and parameters are read, which
    messages they give, and which link and volume requests are made;
  - `graph.rs`: the mirroring logic, from events to the links to create or
    remove and what the user interface shows;
  - `types.rs`, `candidate.rs`, `messages.rs`, `pod.rs`: the data it works on;
  - `ui.rs`: the decisions of the dropdowns, the main view and the port
    widgets;
  - `text.rs`: string helpers and number parsing.
- `tests/` runs the library on concrete values.
- `app/` is the GTK application and the PipeWire thread around the library:
  widgets, the PipeWire listeners, floating-point volumes and drawing.
