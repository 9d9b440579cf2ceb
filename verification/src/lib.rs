//! The editing core of a multi-track audio editor: clips and tracks, the timeline rules, undo
//! history, playback position, mixing, project layout, and what each key and mouse event does.
//!
//! Windows, sound devices, files and floating-point arithmetic stay outside. Times are counted in
//! flicks (see [`time`]), samples are held by their rank (see [`sample`]).

pub mod time;
pub mod sample;
pub mod audio;
pub mod track;
pub mod source;
pub mod edit;
pub mod undo;
pub mod text;
pub mod modal;
pub mod numeral;
pub mod app;
pub mod arrangement;
pub mod geometry;
pub mod commands;
pub mod drag;
pub mod edits;
pub mod group;
pub mod guards;
pub mod hearing;
pub mod history;
pub mod keys;
pub mod mix;
pub mod motion;
pub mod placement;
pub mod playback;
pub mod pointer;
pub mod project;
pub mod region;
pub mod replay;
pub mod scene;
pub mod takeback;
pub mod transport;
pub mod viewing;
