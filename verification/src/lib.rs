//! An entity-component execution core.
//!
//! Units of work ("systems") declare read/write access footprints over
//! component storage slots and resources.  Stages collect systems and run
//! them through a serial executor or a parallel executor that batches
//! systems with compatible access sets.  Structural mutation is deferred
//! into per-system command buffers and applied at a serialized flush point.

pub mod access;
pub mod app;
pub mod any_event_stage;
pub mod commands;
pub mod event_stage;
pub mod into_system;
pub mod laws;
pub mod resources;
pub mod schedule;
pub mod stage;
pub mod system;
pub mod world;
