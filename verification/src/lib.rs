//! MonoX workspace orchestration engine: manifest scanning and analysis,
//! dependency staging with cycle detection, workspace health checks, and a
//! bounded-concurrency task scheduler.
use vstd::prelude::*;

pub mod analyzer;
pub mod checker;
pub mod clock;
pub mod config;
pub mod executor;
pub mod fix;
pub mod graph;
pub mod i18n;
pub mod manifest;
pub mod package;
pub mod scheduler;
pub mod stages;
pub mod strmap;
pub mod task;
pub mod update;
pub mod text;
pub mod version;

verus! {

} // verus!
