//! A directory-scoped key/value store: values are bound to directories and a
//! lookup walks from an anchor directory up to the filesystem root, the
//! nearest binding winning.

pub mod assoc;
pub mod config;
pub mod laws;
pub mod opts;
pub mod path;
pub mod projector;
