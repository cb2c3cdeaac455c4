//! Drives an archiver's list and extract commands and mirrors its console
//! session as a structured document: a reader that rebuilds lines from two
//! interleaved byte streams, line classifiers that shape the document, and
//! an orchestrator that sequences commands and passwords.
use vstd::prelude::*;

pub mod nvim;
pub mod options;
pub mod output_format;
pub mod reader;
pub mod text;
pub mod z7;
