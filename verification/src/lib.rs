//! The logic of a media player: subtitles, timing, queues, colour and the
//! decisions behind the window, each with its behaviour stated and proved.

pub mod audio;
pub mod browse;
pub mod channel;
pub mod cli;
pub mod clock;
pub mod colour;
pub mod colour_laws;
pub mod config;
pub mod cues;
pub mod demux;
pub mod engine;
pub mod error;
pub mod frame;
pub mod hwaccel;
pub mod markup;
pub mod markup_laws;

pub mod media;
pub mod order;
pub mod path;
pub mod player;
pub mod queue;
pub mod render;
pub mod ring;
pub mod stage;
pub mod subtitle;
pub mod text;
pub mod theme;
pub mod time;
pub mod visualizer;
pub mod window;
