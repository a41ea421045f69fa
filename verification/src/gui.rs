//! What the view of a simulation decides without drawing anything.

pub mod speed;
mod theme;

pub use theme::Theme;
