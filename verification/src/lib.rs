//! portcourt: holds what each module of a C→Rust port claims against the
//! evidence of the port, and fails a claim that out-runs it.

use vstd::prelude::*;

pub mod text;
pub mod select;
pub mod table;
pub mod evidence;
pub mod tally;
pub mod claims;
pub mod verdict;
pub mod explain;
pub mod worklist;
pub mod summary;
pub mod cli;
