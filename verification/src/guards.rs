use vstd::prelude::*;

use crate::error::{invalid_data, invalid_input, CodecError};
use vstd::utf8::encode_utf8;

verus! {

/// The outcome of `check_size`: a parsed or variable length must fit strictly
/// below the destination's byte size, leaving room for any terminator
/// accounting done by the caller; otherwise the data is structurally invalid.
pub open spec fn spec_check_size(len: nat, size: nat) -> Result<(), CodecError> {
    if len < size {
        Ok(())
    } else {
        Err(CodecError::InvalidData)
    }
}

/// The outcome of `check_len`: a caller-provided slice must fit strictly
/// below the destination's byte size, reserving at least one byte of slack;
/// otherwise the caller's input is invalid.
pub open spec fn spec_check_len(len: nat, size: nat) -> Result<(), CodecError> {
    if len < size {
        Ok(())
    } else {
        Err(CodecError::InvalidInput)
    }
}

/// The outcome of `check_len_str`: the text's byte length plus one byte for
/// the mandatory terminating zero must fit strictly below the destination's
/// byte size; otherwise the caller's input is invalid.
pub open spec fn spec_check_len_str(s: Seq<char>, size: nat) -> Result<(), CodecError> {
    if encode_utf8(s).len() + 1 < size {
        Ok(())
    } else {
        Err(CodecError::InvalidInput)
    }
}

/// Checks that a length in bytes fits strictly below the `N`-byte destination.
/// Succeeds exactly when `len < N`; fails with `InvalidData` otherwise.
pub fn check_size<const N: usize>(len: usize, dst: &[u8; N]) -> (r: Result<(), CodecError>)
    ensures
        r == spec_check_size(len as nat, N as nat),
{
    if len < N {
        Ok(())
    } else {
        Err(invalid_data())
    }
}

/// Checks that a caller-provided slice fits strictly below the `N`-byte
/// destination. Succeeds exactly when `slice.len() < N`; fails with
/// `InvalidInput` otherwise.
pub fn check_len<V, const N: usize>(slice: &[V], dst: &[u8; N]) -> (r: Result<(), CodecError>)
    ensures
        r == spec_check_len(slice@.len(), N as nat),
{
    if slice.len() < N {
        Ok(())
    } else {
        Err(invalid_input())
    }
}

/// Checks that a text value and its mandatory terminating zero byte fit
/// strictly below the `N`-byte destination. Succeeds exactly when the text's
/// byte length plus one is below `N`; fails with `InvalidInput` otherwise.
pub fn check_len_str<const N: usize>(s: &str, dst: &[u8; N]) -> (r: Result<(), CodecError>)
    ensures
        r == spec_check_len_str(s@, N as nat),
{
    let n = s.as_bytes().len();
    if n < N && n + 1 < N {
        Ok(())
    } else {
        Err(invalid_input())
    }
}

/// `check_size` is a pure function of its inputs: any two results that meet
/// its contract for the same inputs are the same result.
pub proof fn lemma_check_size_pure(
    r1: Result<(), CodecError>,
    r2: Result<(), CodecError>,
    len: nat,
    size: nat,
)
    requires
        r1 == spec_check_size(len, size),
        r2 == spec_check_size(len, size),
    ensures
        r1 == r2,
{
}

/// `check_len` is a pure function of its inputs: any two results that meet
/// its contract for the same inputs are the same result.
pub proof fn lemma_check_len_pure(
    r1: Result<(), CodecError>,
    r2: Result<(), CodecError>,
    len: nat,
    size: nat,
)
    requires
        r1 == spec_check_len(len, size),
        r2 == spec_check_len(len, size),
    ensures
        r1 == r2,
{
}

/// `check_len_str` is a pure function of its inputs: any two results that
/// meet its contract for the same inputs are the same result.
pub proof fn lemma_check_len_str_pure(
    r1: Result<(), CodecError>,
    r2: Result<(), CodecError>,
    s: Seq<char>,
    size: nat,
)
    requires
        r1 == spec_check_len_str(s, size),
        r2 == spec_check_len_str(s, size),
    ensures
        r1 == r2,
{
}

} // verus!
