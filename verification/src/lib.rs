//! A desktop mascot's decision logic: the voice-command grammar and fuzzy
//! matching, the browser-history site index, and the behaviour state machine.
pub mod text;
pub mod levenshtein;
pub mod translit;
pub mod urlenc;
pub mod matching;
pub mod voice;
pub mod sites;
pub mod platform;
pub mod audio;
pub mod mascot;
pub mod config;
