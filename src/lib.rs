//! Conversion of Standard MIDI File event streams into beat-timed note charts.
//!
//! The library works on tracks that have already been decoded into
//! [`event::TrackEvent`] values. It stamps each event with its absolute tick,
//! classifies tracks, shares tempo and time-signature changes between tracks,
//! and walks each note track to produce a chart of beat-timed notes.
pub mod chart;
pub mod config;
pub mod event;
pub mod info;
mod text;
pub mod converter;
pub mod ordering;
pub mod taiko_app;
pub mod timing;
pub mod tracks;
