//! A terminal viewer for static-analysis diagnostics: adapters normalize
//! pyright and flake8 output into one diagnostic model, each diagnostic is
//! rendered once into a block of styled terminal rows, and a viewport state
//! machine scrolls a selection over the concatenated rows.

pub mod bytes;
pub mod diag;
pub mod flake8;
pub mod lines;
pub mod paint;
pub mod pyright;
pub mod render;
pub mod viewport;
