//! The logic of a native terminal: pane layouts, connection profiles, input
//! encoding, output scanning and the workspace that ties them together.

pub mod agent;
pub mod app;
pub mod appicon;
pub mod config;
pub mod editing;
pub mod frames;
pub mod graphics;
pub mod icons;
pub mod input;
pub mod layout;
pub mod port_owner;
pub mod session;
pub mod text;
pub mod workspace;
