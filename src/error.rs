//! Why a conversion or a run stops with failure.
use vstd::prelude::*;

use crate::value::MpInteger;

verus! {

/// The kinds of failure. Those of decoding and of output carry no details
/// here: the caller that performed the input or output holds them.
#[derive(Debug, Clone, Copy, PartialEq, Eq, Structural)]
pub enum Mp2JsonError {
    /// A string, or a map key, is not valid UTF-8.
    InvalidString,
    /// An integer that fits in none of 64-bit signed, unsigned or float.
    InvalidInteger(MpInteger),
    /// A map key that is not a string.
    MapKeyNotString,
    /// The input is malformed or ends inside a value.
    RmpDecode,
    /// Writing or flushing the output failed, other than by a closed pipe.
    Output,
}

} // verus!
