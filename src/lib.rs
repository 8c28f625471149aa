//! An audio-reactive terminal display: fixed-point audio feature extraction
//! with recursive smoothing, and a diff-rendering grid of colored characters.

pub mod text;
pub mod colors;
pub mod terminal_grid;
pub mod smoothed_value;
pub mod features;
pub mod audio_process_buffer;
pub mod config;
pub mod animators;
