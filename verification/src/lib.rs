//! Chord-chart toolkit: parses ChordPro-like song text into a structured
//! chart document and lays the document out as positioned text runs for a
//! fixed-size page.

pub mod chart;
pub mod config;
pub mod layout;
pub mod text;
