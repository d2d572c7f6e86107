//! Transactional installation of toolchain components into an install prefix.

pub mod bisect;
pub mod checksum;
pub mod components;
pub mod disk;
pub mod errors;
pub mod manifest;
pub mod manifestation;
pub mod nightly;
pub mod notify;
pub mod package;
pub mod prefix;
pub mod text;
pub mod transaction;
