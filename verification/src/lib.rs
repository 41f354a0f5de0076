//! A batch blog builder: date-headed markdown posts become per-post JSON
//! artifacts and one title-index artifact.
//!
//! The heart of the library is verified end to end:
//! - [`inject`]: the attribute injector, a single-pass text transform that
//!   appends configured attributes to matching opening HTML tags, with its
//!   scan specified exactly and laws about untouched tags and re-application
//!   proved;
//! - [`post`]: assembling one source file — date line, markdown rendering,
//!   injection, header/body split — with every failure case pinned down;
//! - [`pipeline`]: assembling a whole set of files, the stable newest-first
//!   sort (with order and stability proved), and the full build that renders
//!   every artifact;
//! - [`json`], [`date`], [`chars`]: verified artifact emission, the date
//!   type with its "Month Day, Year" rendering, and character-level
//!   utilities;
//! - [`config`]: loading the replacement table from its JSON configuration.
//!
//! The markdown renderer, the calendar-date parser and the configuration
//! parser are outside collaborators, each reached through one trusted
//! wrapper whose contract states only what its crate documents.

pub mod chars;
pub mod config;
pub mod date;
pub mod inject;
pub mod json;
pub mod pipeline;
pub mod post;
