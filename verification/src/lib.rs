//! Startup rules of a small HTTP service: how the environment becomes a
//! configuration, which log filter is installed, in what order the
//! components come up, and what the single route answers.

pub mod config;
pub mod cuts;
pub mod logging;
pub mod port;
pub mod route;
pub mod startup;
