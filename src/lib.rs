//! Stamping of personalised QR codes and identifiers onto template documents, and the
//! decision logic of a resumable run over a record list with several workers.
//!
//! - `records`, `ids`: the record list read from delimited text, identifiers written with
//!   at least four digits.
//! - `geometry`, `defaults`: what is stamped where, per page, in fixed-point lengths.
//! - `fonts`: typeface resolution with embedding or a standard-font fallback.
//! - `plan`, `content`: the resources and drawing instructions each page receives.
//! - `pdf`: applying plans to a document's object graph, and the QR image.
//! - `batch`: stride partition over workers, stop and skip decisions, progress.
//! - `naming`, `lang`, `session`: file names, language codes, template lookup, run state.

pub mod batch;
pub mod content;
pub mod decimal;
pub mod defaults;
pub mod fonts;
pub mod geometry;
pub mod ids;
pub mod lang;
pub mod naming;
pub mod pdf;
pub mod plan;
pub mod records;
pub mod session;
pub mod text;
