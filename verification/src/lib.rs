pub mod chars;
pub mod text;
pub mod types;
pub mod app;
pub mod help;
pub mod fs_operations;
pub mod zip_preview;
pub mod explorer_fs;
pub mod actions;
