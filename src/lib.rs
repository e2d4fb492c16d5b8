//! Scheduling core of a direct-summation two-dimensional N-body simulation.
//!
//! The library decides which interactions a time step performs and in what
//! order: every unordered pair of distinct bodies exactly once, then the
//! integration of every body in index order, then an observation point.
//! The floating-point force law and integrator run outside, driven by the
//! actions that [`schedule::Run`] hands out.
pub mod schedule;
pub mod sweep;
