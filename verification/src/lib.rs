//! Verified core of `agent-desktop`, a tool with which AI agents observe and
//! drive desktop applications through their accessibility trees.
//!
//! The library decides; the binary (in `app/`) performs. Observing numbers an
//! application's elements ([`tree`]), records the observation and caches its
//! elements ([`snapshot`]), shows them ([`render`], [`subtree`]), and resolves
//! targets and selector queries ([`resolve`], [`query`], [`roles`]); commands become plans for
//! the platform to carry out ([`commands`], [`input`], [`keys`], [`platform`],
//! [`linux`], [`macos`], [`screen`]); the MCP server's tools are listed and
//! dispatched in [`tools`] and [`mcp`]; screenshot detections are suppressed
//! and numbered in [`detections`], [`spatial`], [`regions`] and [`ctc`];
//! [`setup`] checks downloads. [`text`] holds the string helpers and
//! [`encoding`] standard base64.

pub mod caption;
pub mod commands;
pub mod ctc;
pub mod detections;
pub mod encoding;
pub mod input;
pub mod keys;
pub mod linux;
pub mod macos;
pub mod mcp;
pub mod platform;
pub mod query;
pub mod regions;
pub mod render;
pub mod resolve;
pub mod roles;
pub mod screen;
pub mod setup;
pub mod snapshot;
pub mod spatial;
pub mod subtree;
pub mod text;
pub mod tools;
pub mod tree;
