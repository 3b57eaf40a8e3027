//! A terminal campfire animation: the cell buffer, its diff-based flush plan,
//! the sky, the overlays, the scene catalogue and the frame parser.

pub mod renderer;
pub mod flush;
pub mod terminal;
pub mod scene;
pub mod text;
pub mod badapple;
pub mod sky;
pub mod overlay;
pub mod layout;
pub mod ambient;
