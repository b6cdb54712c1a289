//! Voice gender classification: decoding of request bodies, batching of requests, and a
//! Wav2Vec2 sequence classifier.
pub mod api;
pub mod audio;
pub mod batch;
pub mod classifier;
pub mod config;
pub mod device;
pub mod dropout;
pub mod encoder;
pub mod features;
pub mod grid;
pub mod layers;
pub mod masks;
pub mod meaning;
pub mod model;
pub mod naming;
pub mod padding;
pub mod placing;
pub mod scores;
pub mod tensor;
pub mod text;
