//! Procedural road-network growth on an integer lattice.
//!
//! A network grows from one seed proposal. Proposals wait in a scheduler that
//! hands them out by ascending timer, first come first served among equal
//! timers. A proposal that is legal against the segments accepted so far
//! becomes a segment and spawns three follow-on proposals, until the
//! configured depth is reached.
//!
//! Coordinates are whole lattice units, angles whole degrees, and directions
//! come from a fixed-point sine table, so that every run of the generator on
//! the same inputs gives the same network.

pub mod geometry;
pub mod direction;
pub mod road;
pub mod scheduler;
pub mod generator;
