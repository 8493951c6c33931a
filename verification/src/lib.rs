//! Branch sweep engine: finds branches fully merged into a baseline branch,
//! previews them, and drives a confirm-then-delete workflow.
//!
//! The library holds the decision logic only: parsing the output of the
//! version-control tool, filtering candidates, classifying merge status,
//! building the follow-up command line, and the state machine that a host
//! program drives step by step.  The host performs the subprocess calls and
//! terminal I/O and feeds each outcome back as an event.

pub mod cli;
pub mod parse;
pub mod sweep;
pub mod text;
