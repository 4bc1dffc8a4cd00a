//! Process-identifier (PID) namespace subsystem.
//!
//! A PID namespace gives the processes inside it an isolated view of process
//! identifiers: one process has a distinct local PID number at every level of
//! the namespace tree it is visible in.  The crate provides the namespace
//! hierarchy ([`pid_namespace::PidNsTree`]), per-level PID allocation
//! ([`pid_namespace::PidStrcut`]), resource accounting keyed by
//! `(user namespace, uid)` ([`ucount::UCountRegistry`]), and the
//! installation / ancestor-traversal protocol used when a process changes
//! its namespace view.

pub mod error;
pub mod id_alloc;
pub mod ucount;
pub mod pid_namespace;
