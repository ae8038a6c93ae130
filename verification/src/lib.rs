//! Window coordination core for a multi-window desktop text editor.
//!
//! The crate keeps several independently opened editor windows consistent
//! with each other and with the outside world: it classifies incoming path
//! lists into open intents, tracks which window should receive an action,
//! queues paths for windows that are not ready yet, debounces filesystem
//! watch notifications, and routes the cross-window tab-transfer protocol.
//! All registries are plain values owned by the embedding runtime; the
//! runtime probes the filesystem and the window system and hands the results
//! in as plain data, so every decision made here is verified.

pub mod capture;
pub mod cli;
pub mod errors;
pub mod events;
pub mod focus;
pub mod launch;
pub mod lifecycle;
pub mod menu;
pub mod paths;
pub mod pending;
pub mod services;
pub mod text;
pub mod transfer;
pub mod watch;
