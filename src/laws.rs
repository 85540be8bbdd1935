//! What holds of every conversion, stated over the conversion's meaning.
use vstd::prelude::*;
use vstd::utf8::{decode_utf8, encode_utf8, encode_utf8_decode_utf8, encode_utf8_valid_utf8, valid_utf8};

use crate::convert::{
    base64_of, converted, converted_entries, converted_items, integer_number, key_text,
    lemma_entries_failure_stays, lemma_items_failure_stays, number_int,
};
use crate::error::Mp2JsonError;
use crate::text::{keys_unique, lemma_insert_entry, lookup, Json};
use crate::value::{MpInteger, MpValue};

verus! {

/// Every integer converts, to a number with exactly its value.
pub proof fn law_integer_value_kept(i: MpInteger)
    ensures
        converted(MpValue::Integer(i)) == Ok::<Json, Mp2JsonError>(
            Json::Number(integer_number(i)),
        ),
        number_int(integer_number(i)) == Some(i.value()),
{
}

/// A string whose bytes are valid UTF-8 converts to the text they encode.
pub proof fn law_valid_string_decoded(b: Vec<u8>)
    requires
        valid_utf8(b@),
    ensures
        converted(MpValue::String(b)) == Ok::<Json, Mp2JsonError>(Json::Str(decode_utf8(b@))),
{
}

/// A string that holds the UTF-8 encoding of some text converts to exactly
/// that text.
pub proof fn law_encoded_text_recovered(b: Vec<u8>, s: Seq<char>)
    requires
        b@ == encode_utf8(s),
    ensures
        converted(MpValue::String(b)) == Ok::<Json, Mp2JsonError>(Json::Str(s)),
{
    encode_utf8_valid_utf8(s);
    encode_utf8_decode_utf8(s);
}

/// Raw bytes convert to an object whose `encoding` is `base64` and whose
/// `value` is the base64 text of exactly those bytes, in that order.
pub proof fn law_binary_envelope(b: Vec<u8>)
    ensures
        converted(MpValue::Binary(b)) == Ok::<Json, Mp2JsonError>(
            Json::Object(
                seq![("encoding"@, Json::Str("base64"@)), ("value"@, Json::Str(base64_of(b@)))],
            ),
        ),
{
}

/// A converted prefix of an array has one element per input element, each
/// the conversion of the input element at the same place.
proof fn lemma_items_converted(items: Vec<MpValue>, n: nat)
    requires
        n <= items.len(),
        converted_items(items, n) is Ok,
    ensures
        converted_items(items, n)->Ok_0.len() == n,
        forall|i: int|
            0 <= i < n ==> converted(#[trigger] items[i]) == Ok::<Json, Mp2JsonError>(
                converted_items(items, n)->Ok_0[i],
            ),
    decreases n,
{
    if n > 0 {
        lemma_items_converted(items, (n - 1) as nat);
    }
}

/// An array that converts keeps its length and order: element `i` of the
/// result is the conversion of element `i` of the input.
pub proof fn law_array_order_kept(items: Vec<MpValue>)
    requires
        converted(MpValue::Array(items)) is Ok,
    ensures
        converted(MpValue::Array(items))->Ok_0 is Array,
        converted(MpValue::Array(items))->Ok_0->Array_0.len() == items.len(),
        forall|i: int|
            0 <= i < items.len() ==> converted(#[trigger] items[i]) == Ok::<Json, Mp2JsonError>(
                converted(MpValue::Array(items))->Ok_0->Array_0[i],
            ),
{
    lemma_items_converted(items, items.len() as nat);
}

/// When every element before `i` converts and element `i` fails, the whole
/// array fails with the error of element `i`.
pub proof fn law_array_fails_fast(items: Vec<MpValue>, i: int)
    requires
        0 <= i < items.len(),
        converted(items[i]) is Err,
        forall|j: int| 0 <= j < i ==> converted(#[trigger] items[j]) is Ok,
    ensures
        converted(MpValue::Array(items)) == Err::<Json, Mp2JsonError>(
            converted(items[i])->Err_0,
        ),
{
    lemma_items_prefix_ok(items, i as nat);
    lemma_items_failure_stays(items, (i + 1) as nat, items.len() as nat);
}

/// A prefix of elements that all convert converts.
proof fn lemma_items_prefix_ok(items: Vec<MpValue>, n: nat)
    requires
        n <= items.len(),
        forall|j: int| 0 <= j < n ==> converted(#[trigger] items[j]) is Ok,
    ensures
        converted_items(items, n) is Ok,
    decreases n,
{
    if n > 0 {
        lemma_items_prefix_ok(items, (n - 1) as nat);
    }
}

/// A map with any key that is not a string, or not valid UTF-8, fails to
/// convert: no entry is dropped silently.
pub proof fn law_bad_key_fails(entries: Vec<(MpValue, MpValue)>, i: int)
    requires
        0 <= i < entries.len(),
        key_text(entries[i].0) is Err,
    ensures
        converted(MpValue::Dict(entries)) is Err,
{
    if converted_entries(entries, i as nat) is Err {
        lemma_entries_failure_stays(entries, i as nat, entries.len() as nat);
    } else {
        lemma_entries_failure_stays(entries, (i + 1) as nat, entries.len() as nat);
    }
}

/// When every entry before `i` converts and the key of entry `i` is not a
/// string, the map fails with `MapKeyNotString`; when it is a string whose
/// bytes are not UTF-8, with `InvalidString`.
pub proof fn law_bad_key_error(entries: Vec<(MpValue, MpValue)>, i: int)
    requires
        0 <= i < entries.len(),
        key_text(entries[i].0) is Err,
        forall|j: int|
            0 <= j < i ==> key_text(#[trigger] entries[j].0) is Ok && converted(entries[j].1) is Ok,
    ensures
        converted(MpValue::Dict(entries)) == Err::<Json, Mp2JsonError>(
            if entries[i].0 is String {
                Mp2JsonError::InvalidString
            } else {
                Mp2JsonError::MapKeyNotString
            },
        ),
{
    lemma_entries_prefix_ok(entries, i as nat);
    lemma_entries_failure_stays(entries, (i + 1) as nat, entries.len() as nat);
}

/// A prefix of entries whose keys and values all convert converts.
proof fn lemma_entries_prefix_ok(entries: Vec<(MpValue, MpValue)>, n: nat)
    requires
        n <= entries.len(),
        forall|j: int|
            0 <= j < n ==> key_text(#[trigger] entries[j].0) is Ok && converted(entries[j].1) is Ok,
    ensures
        converted_entries(entries, n) is Ok,
    decreases n,
{
    if n > 0 {
        lemma_entries_prefix_ok(entries, (n - 1) as nat);
    }
}

/// The object that a prefix of a map converts to has unique keys.
proof fn lemma_entries_keys_unique(entries: Vec<(MpValue, MpValue)>, n: nat)
    requires
        n <= entries.len(),
        converted_entries(entries, n) is Ok,
    ensures
        keys_unique(converted_entries(entries, n)->Ok_0),
    decreases n,
{
    if n > 0 {
        lemma_entries_keys_unique(entries, (n - 1) as nat);
        let o = converted_entries(entries, (n - 1) as nat)->Ok_0;
        let k = key_text(entries[n - 1].0)->Ok_0;
        let j = converted(entries[n - 1].1)->Ok_0;
        lemma_insert_entry(o, k, j, k);
    }
}

/// In the object a prefix of `n` entries converts to, key `k` holds the
/// value of the last entry `i` with that key.
proof fn lemma_last_entry_wins(entries: Vec<(MpValue, MpValue)>, i: int, k: Seq<char>, n: nat)
    requires
        0 <= i < n <= entries.len(),
        converted_entries(entries, n) is Ok,
        key_text(entries[i].0) == Ok::<Seq<char>, Mp2JsonError>(k),
        forall|j: int|
            i < j < n ==> key_text(#[trigger] entries[j].0) != Ok::<Seq<char>, Mp2JsonError>(k),
    ensures
        lookup(converted_entries(entries, n)->Ok_0, k) == Some(converted(entries[i].1)->Ok_0),
    decreases n,
{
    let o = converted_entries(entries, (n - 1) as nat)->Ok_0;
    let kn = key_text(entries[n - 1].0)->Ok_0;
    let jn = converted(entries[n - 1].1)->Ok_0;
    lemma_entries_keys_unique(entries, (n - 1) as nat);
    lemma_insert_entry(o, kn, jn, k);
    if i < n - 1 {
        lemma_last_entry_wins(entries, i, k, (n - 1) as nat);
    }
}

/// Where a map converts and several entries share a key, the object holds
/// under that key the value of the last of them.
pub proof fn law_last_duplicate_wins(entries: Vec<(MpValue, MpValue)>, i: int, k: Seq<char>)
    requires
        converted(MpValue::Dict(entries)) is Ok,
        0 <= i < entries.len(),
        key_text(entries[i].0) == Ok::<Seq<char>, Mp2JsonError>(k),
        forall|j: int|
            i < j < entries.len() ==> key_text(#[trigger] entries[j].0) != Ok::<
                Seq<char>,
                Mp2JsonError,
            >(k),
    ensures
        converted(MpValue::Dict(entries))->Ok_0 is Object,
        lookup(converted(MpValue::Dict(entries))->Ok_0->Object_0, k) == Some(
            converted(entries[i].1)->Ok_0,
        ),
{
    lemma_last_entry_wins(entries, i, k, entries.len() as nat);
}

} // verus!
