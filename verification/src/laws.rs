//! What the parts of the library promise, stated of their inputs and results.
pub mod configs;
pub mod groups;
pub mod logs;
pub mod processes;
pub mod reloads;
pub mod requests;
pub mod sessions;
pub mod supervisors;
pub mod texts;
pub mod values;
pub mod views;
