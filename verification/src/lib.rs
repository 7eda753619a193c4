pub mod types;
pub mod text;
pub mod parsing;
pub mod stem;
pub mod pipeline;
pub mod extract;
pub mod ui;
pub mod app_state;
pub mod geometry;
pub mod folds;
pub mod prior;
pub mod canvas;
