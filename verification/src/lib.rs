//! The decisions behind an audio converter: which files to convert, what to
//! ask of FFmpeg, where to put the result and how to report progress.

pub mod activity;
pub mod batch;
pub mod binary;
pub mod codec_args;
pub mod convert;
pub mod copying;
pub mod file_collector;
pub mod fixed;
pub mod json;
pub mod network;
pub mod order;
pub mod output;
pub mod outside;
pub mod path;
pub mod preview;
pub mod probe;
pub mod process;
pub mod progress;
pub mod replace;
pub mod resolve;
pub mod resources;
pub mod session;
pub mod settings;
pub mod silence;
pub mod spool;
pub mod summary;
pub mod task;
pub mod text;
pub mod tracks;
pub mod types;
pub mod uploading;
