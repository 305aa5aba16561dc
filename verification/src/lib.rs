//! Verified core of a point-charge simulator.
//!
//! The library reads scenarios, keeps the state of the charges, and runs the
//! ticks: it decides what is computed, in what order, and what may change.
//! It never computes with the components of a vector or the magnitude of a
//! charge, so it leaves their type open; the host, which uses binary64
//! values, brings the arithmetic. A value from the host, one that is infinite
//! or no number included, is kept and handed on as it is: but for the force
//! between two charges within the cutoff, which is put to zero, nothing here
//! tests, clamps or replaces a value.

pub mod charge;
pub mod control;
pub mod number;
pub mod point;
pub mod polarity;
pub mod scenario;
pub mod schedule;
pub mod simulation;
pub mod text;
pub mod world;
