//! Verified core of Local Code: the streaming text scanners, the agent-turn
//! decision logic, configuration merging, and the small formatting rules of
//! the tools and providers.

pub mod agent;
pub mod app_state;
pub mod config;
pub mod id;
pub mod json;
pub mod pattern;
pub mod providers;
pub mod setup;
pub mod system;
pub mod types;
pub mod workspace;
pub mod text;
pub mod tools;
