//! What the site generator decides about the files it writes.
pub mod renderer;
pub mod routes;
pub mod templates;
