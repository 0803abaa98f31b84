//! Interactive core of an on-screen launcher panel.
//!
//! The crate turns a batch of selectable items and a typed query into a
//! ranked, filterable view with a selection cursor, resolves icon bitmaps
//! through an asynchronous cache that never issues duplicate load jobs, and
//! computes the integer layout (pagination window, visible rows, ordinals)
//! that a renderer paints from. All state transitions are verified; the
//! surrounding process (window system, file system, threads) lives outside
//! the crate and talks to it in plain values.

pub mod config;
pub mod desktop;
pub mod engine;
pub mod history;
pub mod icons;
pub mod launch;
pub mod matcher;
pub mod model;
pub mod policy;
pub mod rank;
pub mod session;
pub mod text;
pub mod view;
