//! A presence-status broadcast library.
//!
//! The library tracks a per-user presence status in a replaceable key-value
//! store model and fans every accepted update out to any number of
//! subscribers through a bounded broadcast hub.  Slow subscribers lose old
//! events instead of stalling publishers; a durable write always precedes
//! visibility on the hub.

pub mod codec;
pub mod config;
pub mod event;
pub mod hub;
pub mod service;
pub mod store;
