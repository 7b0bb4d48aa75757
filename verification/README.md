# bevy_spatial_egui

Egui windows placed in 3D space for bevy, driven by spatial input (hands, tips, rays).

- `src/` is the verified library:
  - `window_input`: the per-frame decisions of a window — which input method drives the
    cursor, which button edges to report, which touches start, move and end — with the
    window's remembered state, and the laws that hold of them (touches are bracketed,
    the touching set is exactly the open touches, the pointer-gone event comes first).
  - `edge`: button edge detection and its laws.
  - `event_forwarding`: which primary-window events are passed on to spatial windows.
  - `window_mesh`: the corner and texture layout of the window's box mesh, with its
    laws (outward winding, full faces, front-view texture mapping).
  - `entity_set`: the trusted declarations of the `bevy` entity and entity hash set.
- `app/` holds the bevy plugin, systems, components and spawn command: it reads the ECS,
  measures the spatial input in floating point, and builds egui events and the mesh from
  the library's results.
