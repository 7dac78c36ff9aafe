//! Core library of a desktop play-time tracker for games.
//!
//! The library holds the verified heart of the tracker: the duration
//! codec that converts between a seconds count and the display string
//! `"Xh Ym Zs"`, the persistence store modelling the two on-disk JSON
//! collections (games and sessions), the session-tracker commit step,
//! and the per-frame application-state patching.  Process launching,
//! file input/output and the window shell live outside the library and
//! consume it through plain values.

pub mod crud;
pub mod duration;
pub mod names;
pub mod state;
pub mod storage;
pub mod tracker;
