//! dj_tool: the verified core of a DJ track tool. It finds the tracks under
//! a folder, lays out the framing of their spectrograms and waveforms, and
//! writes audio as AIFF (its container written here) or MP3 (through LAME).
pub mod converter;
pub mod text;
pub mod folder_crawler;
pub mod parse_path;
pub mod backend;
