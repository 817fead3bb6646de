pub mod app;
pub mod config;
pub mod document;
pub mod editor;
pub mod preview;
pub mod search;
pub mod shortcuts;
pub mod storage;
pub mod text;
pub mod window;
