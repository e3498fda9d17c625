//! Coordinated version release for a multi-package workspace: bump a shared
//! version, propagate it into every member manifest and every local dependency
//! edge, and plan a dependency-respecting, idempotent publish walk with
//! bounded retries.

pub mod version;
pub mod graph;
pub mod publish;
pub mod retry;
pub mod manifest;
pub mod armory;
pub mod workspace;
