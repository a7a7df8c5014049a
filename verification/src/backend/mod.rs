//! The track-processing library: folder crawling, input parsing, audio
//! container encoding, and the integer layouts behind the signal analysis.
pub mod api;
pub mod audio;
pub mod folder_crawler;
pub mod parse_path;
pub mod encoder;
pub mod spectrogram;
