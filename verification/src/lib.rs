//! Planning of ffmpeg/ffprobe work for turning MP3 files into videos.
pub mod text;
pub mod commands;
pub mod duration;
pub mod segments;
pub mod background;
pub mod video;
pub mod cli;
