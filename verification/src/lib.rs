//! Identity-and-access core for a mission/crew coordination service.
//!
//! Principals ("brawlers") register with a username and password,
//! authenticate to receive a bearer credential, and that credential gates
//! access to mission-lifecycle operations: status transitions that only a
//! mission's chief may perform, crew-membership counting, and
//! membership-derived visibility.

pub mod auth;
pub mod errors;
pub mod gate;
pub mod hasher;
pub mod missions;
pub mod numbers;
pub mod store;
pub mod token;
