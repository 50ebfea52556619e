pub mod text;
pub mod urls;
pub mod storage;
pub mod time;
pub mod sorting;
pub mod like;
pub mod xml;
pub mod feed_parser;
pub mod html;
pub mod display;
pub mod discovery;
pub mod syncer;
pub mod config;
pub mod cli;
pub mod window;
pub mod laws;
