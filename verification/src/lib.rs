//! Static files that clients may cache for a year, because the URL of a
//! file changes whenever the file does.
//!
//! At build time [`generate`] turns what a walk of the asset directory found
//! into a table from each file's relative path to a fingerprint of its
//! contents. At serving time [`resolver::serve_static`] answers a request
//! from that table: with the file where the client names the current
//! fingerprint, with a redirect to the URL that carries it where not.
//! [`StaticFiles::to`] writes such URLs into pages.

pub mod codegen;
pub mod digest;
pub mod failure;
pub mod generator;
pub mod lookup;
pub mod media;
pub mod paths;
pub mod resolver;
pub mod table;
pub mod text;
pub mod uri;

pub use crate::resolver::{FileResponse, StaticFiles};
pub use crate::generator::{generate, Error};
pub use phf;
