//! A verified core for a log-monitoring daemon: incremental line reading
//! with rotation awareness, sliding-window failure tracking, and alert
//! decisions over filesystem change events.

pub mod engine;
pub mod lines;
pub mod tracker;
pub mod watch;
