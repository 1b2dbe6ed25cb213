pub mod themes;
pub mod node_renderer;
pub mod label;
pub mod frame;
