//! The verified core of `rebab`, a small rule-based reverse proxy: rules are
//! read from their text form and combined with the configuration file,
//! requests are routed to the first rule whose prefix starts their path,
//! forwarded headers are chosen, commands for rules are planned and their
//! processes reported on.

pub mod body;
pub mod config;
pub mod log;
pub mod number;
pub mod parameter;
pub mod process;
pub mod routing;
pub mod service;
pub mod text;
