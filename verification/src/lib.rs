//! Core logic of a directory-serving HTTP file server: safe resolution of
//! request paths against a served root, MIME classification, human-readable
//! size formatting, directory-listing construction, upload accounting, and
//! request dispatch. All I/O (the HTTP transport, filesystem reads and
//! writes) lives outside this crate; these functions work on plain values.

pub mod listing;
pub mod mime;
pub mod paths;
pub mod router;
pub mod size;
pub mod strutil;
pub mod upload;
