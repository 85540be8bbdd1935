//! The binary value model: MessagePack values as decoded from a stream.
use vstd::prelude::*;

verus! {

/// Largest payload, in bytes, that a value can carry: no allocation is larger.
pub const MAX_PAYLOAD: usize = usize::MAX / 2;

/// A MessagePack integer: a non-negative value read as unsigned, a negative
/// one as signed.
#[derive(Debug, Clone, Copy, PartialEq, Eq, Structural)]
pub enum MpInteger {
    PosInt(u64),
    NegInt(i64),
}

impl MpInteger {
    /// The integer this stands for.
    pub open spec fn value(self) -> int {
        match self {
            MpInteger::PosInt(u) => u as int,
            MpInteger::NegInt(i) => i as int,
        }
    }
}

/// A decoded MessagePack value. Floating-point values are carried as their
/// IEEE 754 bit patterns; strings as the raw bytes that claim to be UTF-8.
#[derive(Debug, PartialEq)]
pub enum MpValue {
    Nil,
    Boolean(bool),
    Integer(MpInteger),
    F32(u32),
    F64(u64),
    String(Vec<u8>),
    Binary(Vec<u8>),
    Array(Vec<MpValue>),
    Dict(Vec<(MpValue, MpValue)>),
    Ext(i8, Vec<u8>),
}

/// Every byte payload in the value fits in an allocation.
pub open spec fn payloads_fit(v: MpValue) -> bool
    decreases v,
{
    match v {
        MpValue::Binary(b) => b.len() <= MAX_PAYLOAD,
        MpValue::Ext(_, b) => b.len() <= MAX_PAYLOAD,
        MpValue::Array(items) => forall|i: int|
            0 <= i < items.len() ==> payloads_fit(#[trigger] items[i]),
        MpValue::Dict(entries) => forall|i: int|
            0 <= i < entries.len() ==> payloads_fit(#[trigger] entries[i].0) && payloads_fit(
                entries[i].1,
            ),
        _ => true,
    }
}

} // verus!
