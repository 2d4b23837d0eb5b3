//! Data model for compiled-binary hardening reports.
//!
//! The crate represents the outcome of per-format security analyses (ELF,
//! PE, Mach-O) through one uniform, format-tagged interface: a [`binary::Blob`]
//! pairs a format tag with that format's property record, and a
//! [`binary::Binary`] ties a file to its blobs and, recursively, to the
//! binaries it links against. The model is pure data: parsing, property
//! detection and dependency resolution are collaborators that feed it.

pub mod arch;
pub mod binary;
pub mod codec;
pub mod props;
pub mod render;
