//! Transcript cleaning, title and intent extraction, and summary parsing
//! for meeting and voice-memo recordings.

pub mod text;
pub mod segments;
pub mod config;
pub mod summary;
pub mod engines;
pub mod speakers;
pub mod transcribe;
pub mod title;
pub mod intents;
pub mod entities;
pub mod pipeline;
pub mod steps;
pub mod frontmatter;
pub mod screens;
pub mod cli;
