//! Capture, index and recover local desktop history: the rules and data
//! structures behind the `rewindd` helper.
pub mod archive;
pub mod capture;
pub mod cli;
pub mod clipboard;
pub mod config;
pub mod daemon;
pub mod dhash;
pub mod encode;
pub mod exclude;
pub mod float;
pub mod gate;
pub mod hypr;
pub mod ipc;
pub mod json;
pub mod lookup;
pub mod ocr;
pub mod pause;
pub mod perms;
pub mod pixel;
pub mod plan;
pub mod query;
pub mod reader;
pub mod rows;
pub mod search;
pub mod shot;
pub mod store;
pub mod table;
pub mod text;
pub mod tx;
pub mod views;
pub mod wipe;

pub use clipboard::CLIP_CAP;
pub use daemon::{self_test, VERSION};
