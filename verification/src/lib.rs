pub mod notes;
pub mod outside;
pub mod state;
pub mod text;
pub mod view;
pub mod laws;
