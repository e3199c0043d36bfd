//! The error kinds a render pass can surface: I/O failures, malformed
//! structured data, unusable paths, template-engine failures, and the
//! configuration error raised when a derived output path still bears the
//! template extension.

use vstd::prelude::*;

verus! {

#[derive(Clone, Copy, Debug, PartialEq, Eq, Structural)]
pub enum Error {
    Io,
    Parse,
    Path,
    Template,
    Config,
}

} // verus!
