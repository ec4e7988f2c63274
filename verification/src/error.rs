use vstd::prelude::*;

verus! {

/// Errors produced by the library.
///
/// `FormatError` covers every malformed wire input: truncation, a bad
/// length, an unknown type, class, operation or response code, and a bad
/// or looping name pointer. `InvalidName` is returned when a name is
/// rejected at construction.
#[derive(Debug, Clone, Copy, PartialEq, Eq, Structural)]
pub enum DnsError {
    FormatError,
    InvalidName,
}

} // verus!
