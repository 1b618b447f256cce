//! The extension side of the bridge.

pub mod plugin;
