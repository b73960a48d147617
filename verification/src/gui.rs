//! User interface state.
pub mod frames;
pub mod scene;
pub mod scenes;
