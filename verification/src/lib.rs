//! Light patterns for an installation driven by motion: cycling brightness and
//! colour patterns, a rolling buffer of recent readings, and the text messages
//! that set the lights.

pub mod decimal;
pub mod render;
pub mod arduino;
pub mod buffer;
pub mod cycle;
pub mod clouds;
