//! How a write fails.

use vstd::prelude::*;

verus! {

/// `std::io::Error`, carried through as it came. Nothing is claimed of what is in it.
#[verifier::external_type_specification]
#[verifier::external_body]
pub struct ExIoError(std::io::Error);

/// Why a writer or a sink gave up.
#[derive(Debug)]
pub enum Error {
    /// The sink was asked to empty the buffer and left bytes in it.
    WriteZero,
    /// What lies behind the sink reported this.
    Io(std::io::Error),
}

/// The text that goes with [`Error::WriteZero`].
pub const NO_PROGRESS: &'static str = "drain made no progress";

} // verus!
