//! A zone-image package builder's core: validated names, target maps and
//! interpolation, the dependency order of packages, the ordered inputs that
//! make each archive, the rules of zone images, the decisions of the
//! digest-based build cache, and when a downloaded blob can be reused.

pub mod archive;
pub mod blob;
pub mod cache;
pub mod config;
pub mod digest;
pub mod identifier;
pub mod input;
pub mod inputs;
pub mod package;
pub mod paths;
pub mod target;
pub mod timer;
mod text;
