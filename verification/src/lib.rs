//! Core of the Vavo ECS engine: ticks, system descriptions, parameter conflict detection, the
//! phase/layer scheduler and the order it runs systems in, deferred world commands, render asset
//! caching and storage sizing, states, UI interaction and frustum culling decisions.
pub mod tick;
pub mod text;
pub mod system;
pub mod state;
pub mod render_assets;
pub mod ui;
pub mod renderer;
pub mod resources;
