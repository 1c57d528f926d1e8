use vstd::prelude::*;

verus! {

/// Errors of the signature module.
#[derive(Debug, PartialEq, Eq, Structural, Clone, Copy)]
pub enum Error {
    /// A DER fragment that holds no item cannot become a nested value.
    ConvertError,
    /// The data ended before an item that it announces.
    IoError,
    /// The data is not the DER encoding of the expected structure.
    DerError,
    /// The data is neither a version 1 nor a version 4 signature.
    UnSupportedSignClass,
}

} // verus!
