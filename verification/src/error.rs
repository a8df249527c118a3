use vstd::prelude::*;

verus! {

/// The closed set of failure kinds reported by this library.
///
/// `InvalidInput` marks a pre-condition failure on something the caller
/// controls: a caller-supplied destination buffer or slice is too small to
/// safely receive data. `InvalidData` marks a post-condition failure on
/// something the caller does not directly control: previously stored or
/// supplied data does not meet a required structural constraint, such as not
/// being valid text.
#[derive(Clone, Copy, Debug, PartialEq, Eq, Structural)]
pub enum CodecError {
    /// A caller-supplied destination cannot safely receive the data.
    InvalidInput,
    /// Stored or supplied data breaks a required structural constraint.
    InvalidData,
}

/// The failure reported when a caller-supplied destination is too small.
pub fn invalid_input() -> (e: CodecError)
    ensures
        e == CodecError::InvalidInput,
{
    CodecError::InvalidInput
}

/// The failure reported when stored or supplied data is structurally invalid.
pub fn invalid_data() -> (e: CodecError)
    ensures
        e == CodecError::InvalidData,
{
    CodecError::InvalidData
}

} // verus!
