//! Discrete core of a "particle life" simulation: the control state machine,
//! the spatial hash grid used for neighbour search, the neighbour lists that
//! drive the interaction step, and the initial particle type layout.

pub mod components;
pub mod config;
pub mod controls;
pub mod hud;
pub mod particles;
pub mod physics;
pub mod resources;
mod seq_facts;
pub mod torus;
pub mod spatial_grid;
