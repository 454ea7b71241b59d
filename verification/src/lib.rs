//! Packaging of a project directory into a ZIP archive and the client side of
//! its submission to a grading service.
//!
//! The library holds the rules: which entries of a directory tree go into the
//! archive and under which names, how the archive is filled, how the upload
//! request is formed and how the service's answer is read. Walking the file
//! system, reading files and talking HTTP are left to the caller, who hands
//! over what was found as plain values.

pub mod archive;
pub mod container;
pub mod path;
pub mod reader;
pub mod submit;
pub mod text;
pub mod walk;
