//! Core logic of a single-operator task orchestrator daemon.
//!
//! The daemon watches a directory of task documents, keeps a durable mailbox
//! of operator messages, detects newly appeared tasks between directory
//! snapshots, and composes the messages handed to an external agent process.
//! Everything in this library is pure computation on plain values; the
//! surrounding process (file watching, process spawning, terminal
//! attachment) lives outside it and only feeds it directory listings, file
//! contents and event paths.

pub mod daemon;
pub mod mailbox;
pub mod registry;
pub mod report;
pub mod task_doc;
pub mod text;

