pub mod layout;
pub mod text;
pub mod entry;
pub mod order;
pub mod geometry;
pub mod treemap;
pub mod path;
pub mod state;
pub mod cli;
pub mod input;
pub mod ui;
pub mod gui;
pub mod heatmap;
pub mod os_actions;
pub mod control;
pub mod assets;
