//! Verified core of a desktop translation tool: language handling, text
//! chunking, backend request planning and reply reading, and the small state
//! machines behind selection capture, OCR and global shortcuts.

pub mod text;
pub mod chunk;
pub mod config;
pub mod langs;
pub mod json;
pub mod translate;
pub mod shortcuts;
pub mod capture;
pub mod panel;
