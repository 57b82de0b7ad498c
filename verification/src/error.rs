//! The ways in which a conversion fails.

use vstd::prelude::*;

verus! {

/// Why a conversion failed. Every failure is final: nothing is produced.
#[derive(Clone, Copy, Debug, PartialEq, Eq, Structural)]
pub enum ConvertError {
    /// The grammar holds a node that cannot be written in the target format.
    UnsupportedConstruct,
    /// The grammar text could not be parsed.
    MalformedInput,
}

} // verus!
