//! Locates a configuration file by searching upward from a starting
//! directory, trying a caller-supplied list of filename extensions in
//! priority order, and computes a lexical relative path for display.
//!
//! All path arithmetic here is purely lexical: paths are modelled as a
//! sequence of segments plus an absolute/relative flag, and no function
//! in this crate touches the filesystem. A host program performs the
//! existence probes and the final file read, feeding the outcomes back
//! into the verified selection logic.

pub mod error;
pub mod locator;
pub mod path;
pub mod relative;
