//! Speech-to-text and text-to-speech behind one normalized model.

pub mod audio;
pub mod binary;
pub mod canary;
pub mod capabilities;
pub mod cartesia;
pub mod cli;
pub mod compose;
pub mod config;
pub mod decimal;
pub mod domain;
pub mod elevenlabs;
pub mod encoding;
pub mod engine;
pub mod error;
pub mod http;
pub mod json;
pub mod models;
pub mod openai;
pub mod output;
pub mod path;
pub mod ports;
pub mod provider;
pub mod qwen3_tts;
pub mod reports;
pub mod splitting;
pub mod text;
pub mod xai;
pub mod xai_realtime;
pub mod xai_stream;
pub mod xai_timestamps;
pub mod xai_voices;
