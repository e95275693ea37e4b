//! The core of a process supervisor: what it knows, what it decides, and what it shows.
//!
//! Nothing here touches the system. A function that needs the system to act says what is
//! to be done, and another one takes notice of what came of it.
pub mod config;
pub mod instance;
pub mod laws;
pub mod logger;
pub mod manager;
pub mod names;
pub mod numbers;
pub mod order;
pub mod platform;
pub mod shell;
pub mod signals;
pub mod single_log;
pub mod supervisor;
pub mod text;
