//! Persistence and choreography core of a small robot-control backend.
//!
//! The crate holds a typed object store for boards, devices, groups, animations and
//! postures, the cascades that keep those records consistent with each other, and the
//! resolution of authored animations into per-device hardware timelines.
//!
//! - [`entity`], [`table`]: what records have in common, and one category of them.
//! - [`board`], [`device`], [`group`], [`animation`], [`posture`], [`mp3`]: the records.
//! - [`model`], [`database`]: the store, as the contracts see it and as it runs.
//! - [`service`], [`ack`], [`rest`], [`interface`]: what the interface asks of the store.
//! - [`laws`], [`store_laws`]: what holds of resolution and of the store.
//! - [`engine`]: the values of the playback engine that records carry.
//! - [`converter`], [`logger`], [`media`], [`text`], [`utils`]: helpers.
//!
//! The store works in memory and journals the files that are to be written; files,
//! hardware and clients are reached by whoever uses the crate.

pub mod ack;
pub mod animation;
pub mod board;
pub mod converter;
pub mod database;
pub mod device;
pub mod engine;
pub mod entity;
pub mod group;
pub mod interface;
pub mod laws;
pub mod logger;
pub mod media;
pub mod model;
pub mod mp3;
pub mod posture;
pub mod rest;
pub mod service;
pub mod store_laws;
pub mod table;
pub mod text;
pub mod utils;
