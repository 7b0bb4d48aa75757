//! Verified core of a spatial egui window: the touch and button bookkeeping that turns
//! spatial input into egui events, the choice of which primary-window events are forwarded,
//! and the triangle layout of the window's box mesh.
pub mod edge;
pub mod entity_set;
pub mod event_forwarding;
pub mod frame_laws;
pub mod window_input;
pub mod window_mesh;
