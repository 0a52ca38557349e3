//! Verified core of a speech transcription tool.

pub mod audio;
pub mod chunking;
pub mod cli;
pub mod dynamic_chunk;
pub mod features;
pub mod gigaam;
pub mod language;
pub mod live;
pub mod model;
pub mod model_download;
pub mod numbers;
pub mod onnx_ctc;
pub mod onnx_transducer;
pub mod parakeet;
pub mod paths;
pub mod raw_live;
pub mod report;
pub mod rest;
pub mod runtime_install;
pub mod runtime_library;
pub mod scores;
pub mod stream;
pub mod stream_laws;
pub mod text;
pub mod text_laws;
pub mod urls;
pub mod video;
pub mod words;
