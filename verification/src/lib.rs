//! Unattended sweeping of funds from a fixed set of private keys into their
//! paired target addresses, driven through an external wallet engine.
//!
//! The library holds the verified core: the key-file parser and [`keystore::KeyStore`],
//! the construction of the engine's command lines ([`bridge`]), and the
//! bootstrap-then-poll state machine ([`cycle::SweepCycle`]) together with the
//! fixed-delay [`schedule::Scheduler`]. Spawning the engine's processes, the
//! command line interface and logging live outside the library.

pub mod bridge;
pub mod cycle;
pub mod keystore;
pub mod schedule;
