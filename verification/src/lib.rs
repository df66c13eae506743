pub mod msg;
pub mod text;
pub mod filter;
pub mod clock;
pub mod transcribe;
pub mod markdown;
pub mod translate;
pub mod vad;
pub mod app;
pub mod audio;
pub mod ui;
pub mod config;
pub mod paths;
