//! Conversion of one MessagePack value into one JSON value.
use vstd::prelude::*;
use vstd::utf8::{decode_utf8, valid_utf8};

use crate::error::Mp2JsonError;
use crate::text::{
    insert_entry, items_view, keys_unique, lemma_entries_view, lemma_items_view, object_insert,
    object_view, Json, JsonNumber, JsonValue,
};
use crate::value::{payloads_fit, MpInteger, MpValue, MAX_PAYLOAD};

verus! {

/// The padded standard-alphabet base64 text of some bytes.
pub uninterp spec fn base64_of(b: Seq<u8>) -> Seq<char>;

/// Relies on base64's `Engine::encode` with the `STANDARD` engine: the
/// padded standard-alphabet encoding, which depends on the bytes alone. It
/// panics only where the encoded length overflows `usize`.
#[verifier::external_body]
fn base64_encode(b: &Vec<u8>) -> (r: String)
    requires
        b@.len() <= MAX_PAYLOAD,
    ensures
        r@ == base64_of(b@),
{
    base64::Engine::encode(&base64::engine::general_purpose::STANDARD, b)
}

/// Relies on `String::from_utf8`: it succeeds exactly when the bytes are
/// valid UTF-8, and the string then holds the characters they encode.
#[verifier::external_body]
fn utf8_text(b: &Vec<u8>) -> (r: Option<String>)
    ensures
        match r {
            Some(s) => valid_utf8(b@) && s@ == decode_utf8(b@),
            None => !valid_utf8(b@),
        },
{
    String::from_utf8(b.clone()).ok()
}

/// The JSON number an integer becomes: signed where it fits in `i64`, else
/// unsigned.
pub open spec fn integer_number(i: MpInteger) -> JsonNumber {
    match i {
        MpInteger::PosInt(u) => if u <= i64::MAX as u64 {
            JsonNumber::Signed(u as i64)
        } else {
            JsonNumber::Unsigned(u)
        },
        MpInteger::NegInt(n) => JsonNumber::Signed(n),
    }
}

/// The integer a JSON number stands for, where it is an integer.
pub open spec fn number_int(n: JsonNumber) -> Option<int> {
    match n {
        JsonNumber::Signed(i) => Some(i as int),
        JsonNumber::Unsigned(u) => Some(u as int),
        _ => None,
    }
}

/// The envelope that carries raw bytes as text.
pub open spec fn binary_envelope(b: Seq<u8>) -> Json {
    Json::Object(
        seq![("encoding"@, Json::Str("base64"@)), ("value"@, Json::Str(base64_of(b)))],
    )
}

/// The envelope that carries an extension value: its type code and payload.
pub open spec fn ext_envelope(type_code: i8, b: Seq<u8>) -> Json {
    Json::Object(
        seq![
            ("type_code"@, Json::Number(JsonNumber::Signed(type_code as i64))),
            ("encoding"@, Json::Str("base64"@)),
            ("value"@, Json::Str(base64_of(b))),
        ],
    )
}

/// What converting `v` gives: the JSON value it maps to, or the first
/// failure met in a depth-first walk.
pub open spec fn converted(v: MpValue) -> Result<Json, Mp2JsonError>
    decreases v, 0nat,
{
    match v {
        MpValue::Nil => Ok(Json::Null),
        MpValue::Boolean(b) => Ok(Json::Boolean(b)),
        MpValue::Integer(i) => Ok(Json::Number(integer_number(i))),
        MpValue::F32(bits) => Ok(Json::Number(JsonNumber::Float32Bits(bits))),
        MpValue::F64(bits) => Ok(Json::Number(JsonNumber::Float64Bits(bits))),
        MpValue::String(b) => if valid_utf8(b@) {
            Ok(Json::Str(decode_utf8(b@)))
        } else {
            Err(Mp2JsonError::InvalidString)
        },
        MpValue::Binary(b) => Ok(binary_envelope(b@)),
        MpValue::Array(items) => match converted_items(items, items.len() as nat) {
            Ok(s) => Ok(Json::Array(s)),
            Err(e) => Err(e),
        },
        MpValue::Dict(entries) => match converted_entries(entries, entries.len() as nat) {
            Ok(o) => Ok(Json::Object(o)),
            Err(e) => Err(e),
        },
        MpValue::Ext(t, b) => Ok(ext_envelope(t, b@)),
    }
}

/// Converting the first `n` elements of an array, in order, stopping at the
/// first failure.
pub open spec fn converted_items(items: Vec<MpValue>, n: nat) -> Result<Seq<Json>, Mp2JsonError>
    decreases items, n,
{
    if n == 0 || n > items.len() {
        Ok(Seq::empty())
    } else {
        match converted_items(items, (n - 1) as nat) {
            Err(e) => Err(e),
            Ok(s) => match converted(items[n - 1]) {
                Err(e) => Err(e),
                Ok(j) => Ok(s.push(j)),
            },
        }
    }
}

/// The text of a map key, or why it has none.
pub open spec fn key_text(k: MpValue) -> Result<Seq<char>, Mp2JsonError> {
    match k {
        MpValue::String(b) => if valid_utf8(b@) {
            Ok(decode_utf8(b@))
        } else {
            Err(Mp2JsonError::InvalidString)
        },
        _ => Err(Mp2JsonError::MapKeyNotString),
    }
}

/// Converting the first `n` entries of a map into an object, in order,
/// stopping at the first failure; a later key overwrites an earlier one.
pub open spec fn converted_entries(entries: Vec<(MpValue, MpValue)>, n: nat) -> Result<
    Seq<(Seq<char>, Json)>,
    Mp2JsonError,
>
    decreases entries, n,
{
    if n == 0 || n > entries.len() {
        Ok(Seq::empty())
    } else {
        match converted_entries(entries, (n - 1) as nat) {
            Err(e) => Err(e),
            Ok(o) => match key_text(entries[n - 1].0) {
                Err(e) => Err(e),
                Ok(k) => match converted(entries[n - 1].1) {
                    Err(e) => Err(e),
                    Ok(j) => Ok(insert_entry(o, k, j)),
                },
            },
        }
    }
}

/// Once a prefix of an array fails, every longer prefix fails the same way.
pub proof fn lemma_items_failure_stays(items: Vec<MpValue>, i: nat, n: nat)
    requires
        i <= n <= items.len(),
        converted_items(items, i) is Err,
    ensures
        converted_items(items, n) == converted_items(items, i),
    decreases n,
{
    if n > i {
        lemma_items_failure_stays(items, i, (n - 1) as nat);
    }
}

/// Once a prefix of a map fails, every longer prefix fails the same way.
pub proof fn lemma_entries_failure_stays(entries: Vec<(MpValue, MpValue)>, i: nat, n: nat)
    requires
        i <= n <= entries.len(),
        converted_entries(entries, i) is Err,
    ensures
        converted_entries(entries, n) == converted_entries(entries, i),
    decreases n,
{
    if n > i {
        lemma_entries_failure_stays(entries, i, (n - 1) as nat);
    }
}

/// The meaning of a conversion result.
pub open spec fn result_view(r: Result<JsonValue, Mp2JsonError>) -> Result<Json, Mp2JsonError> {
    match r {
        Ok(j) => Ok(j@),
        Err(e) => Err(e),
    }
}


/// The JSON number an integer becomes.
pub fn number_of_integer(i: MpInteger) -> (r: JsonNumber)
    ensures
        r == integer_number(i),
        number_int(r) == Some(i.value()),
{
    match i {
        MpInteger::PosInt(u) => if u <= i64::MAX as u64 {
            JsonNumber::Signed(u as i64)
        } else {
            JsonNumber::Unsigned(u)
        },
        MpInteger::NegInt(n) => JsonNumber::Signed(n),
    }
}

/// Wraps raw bytes in their base64 envelope.
pub fn binary_object(b: &Vec<u8>) -> (r: JsonValue)
    requires
        b@.len() <= MAX_PAYLOAD,
    ensures
        r@ == binary_envelope(b@),
{
    let mut o: Vec<(String, JsonValue)> = Vec::new();
    o.push(("encoding".to_owned(), JsonValue::String("base64".to_owned())));
    o.push(("value".to_owned(), JsonValue::String(base64_encode(b))));
    proof {
        lemma_entries_view(o, 2);
        assert(object_view(o) =~= seq![
            ("encoding"@, Json::Str("base64"@)),
            ("value"@, Json::Str(base64_of(b@))),
        ]);
    }
    JsonValue::Object(o)
}

/// Wraps an extension value in its envelope.
pub fn ext_object(type_code: i8, b: &Vec<u8>) -> (r: JsonValue)
    requires
        b@.len() <= MAX_PAYLOAD,
    ensures
        r@ == ext_envelope(type_code, b@),
{
    let mut o: Vec<(String, JsonValue)> = Vec::new();
    o.push(("type_code".to_owned(), JsonValue::Number(JsonNumber::Signed(type_code as i64))));
    o.push(("encoding".to_owned(), JsonValue::String("base64".to_owned())));
    o.push(("value".to_owned(), JsonValue::String(base64_encode(b))));
    proof {
        lemma_entries_view(o, 3);
        assert(object_view(o) =~= seq![
            ("type_code"@, Json::Number(JsonNumber::Signed(type_code as i64))),
            ("encoding"@, Json::Str("base64"@)),
            ("value"@, Json::Str(base64_of(b@))),
        ]);
    }
    JsonValue::Object(o)
}

/// Converts one MessagePack value into the JSON value it maps to, or fails
/// with the first failure met in a depth-first walk.
pub fn convert(v: &MpValue) -> (r: Result<JsonValue, Mp2JsonError>)
    requires
        payloads_fit(*v),
    ensures
        result_view(r) == converted(*v),
    decreases v, 0nat,
{
    match v {
        MpValue::Nil => Ok(JsonValue::Null),
        MpValue::Boolean(b) => Ok(JsonValue::Boolean(*b)),
        MpValue::Integer(i) => Ok(JsonValue::Number(number_of_integer(*i))),
        MpValue::F32(bits) => Ok(JsonValue::Number(JsonNumber::Float32Bits(*bits))),
        MpValue::F64(bits) => Ok(JsonValue::Number(JsonNumber::Float64Bits(*bits))),
        MpValue::String(b) => match utf8_text(b) {
            Some(s) => Ok(JsonValue::String(s)),
            None => Err(Mp2JsonError::InvalidString),
        },
        MpValue::Binary(b) => Ok(binary_object(b)),
        MpValue::Array(items) => match convert_items(items) {
            Ok(out) => {
                proof {
                    lemma_items_view(out, out.len() as nat);
                }
                Ok(JsonValue::Array(out))
            },
            Err(e) => Err(e),
        },
        MpValue::Dict(entries) => match convert_entries(entries) {
            Ok(out) => Ok(JsonValue::Object(out)),
            Err(e) => Err(e),
        },
        MpValue::Ext(t, b) => Ok(ext_object(*t, b)),
    }
}

/// Converts the elements of an array in order, stopping at the first failure.
fn convert_items(items: &Vec<MpValue>) -> (r: Result<Vec<JsonValue>, Mp2JsonError>)
    requires
        forall|i: int| 0 <= i < items.len() ==> payloads_fit(#[trigger] items[i]),
    ensures
        match r {
            Ok(out) => converted_items(*items, items.len() as nat) == Ok::<
                Seq<Json>,
                Mp2JsonError,
            >(items_view(out, out.len() as nat)),
            Err(e) => converted_items(*items, items.len() as nat) == Err::<Seq<Json>, Mp2JsonError>(
                e,
            ),
        },
    decreases items, 1nat,
{
    let mut out: Vec<JsonValue> = Vec::new();
    let mut i: usize = 0;
    while i < items.len()
        invariant
            i <= items.len(),
            out.len() == i,
            forall|j: int| 0 <= j < items.len() ==> payloads_fit(#[trigger] items[j]),
            converted_items(*items, i as nat) == Ok::<Seq<Json>, Mp2JsonError>(
                items_view(out, out.len() as nat),
            ),
        decreases items.len() - i,
    {
        let ghost before = out;
        match convert(&items[i]) {
            Ok(j) => {
                out.push(j);
                proof {
                    lemma_items_view(before, before.len() as nat);
                    lemma_items_view(out, out.len() as nat);
                    assert(items_view(out, out.len() as nat) =~= items_view(
                        before,
                        before.len() as nat,
                    ).push(out[i as int]@));
                }
            },
            Err(e) => {
                proof {
                    lemma_items_failure_stays(*items, (i + 1) as nat, items.len() as nat);
                }
                return Err(e);
            },
        }
        i += 1;
    }
    Ok(out)
}

/// Converts the entries of a map into an object in order, stopping at the
/// first failure; a later key overwrites an earlier one.
fn convert_entries(entries: &Vec<(MpValue, MpValue)>) -> (r: Result<
    Vec<(String, JsonValue)>,
    Mp2JsonError,
>)
    requires
        forall|i: int|
            0 <= i < entries.len() ==> payloads_fit(#[trigger] entries[i].0) && payloads_fit(
                entries[i].1,
            ),
    ensures
        match r {
            Ok(out) => converted_entries(*entries, entries.len() as nat) == Ok::<
                Seq<(Seq<char>, Json)>,
                Mp2JsonError,
            >(object_view(out)),
            Err(e) => converted_entries(*entries, entries.len() as nat) == Err::<
                Seq<(Seq<char>, Json)>,
                Mp2JsonError,
            >(e),
        },
    decreases entries, 1nat,
{
    let mut out: Vec<(String, JsonValue)> = Vec::new();
    proof {
        lemma_entries_view(out, 0);
    }
    let mut i: usize = 0;
    while i < entries.len()
        invariant
            i <= entries.len(),
            forall|j: int|
                0 <= j < entries.len() ==> payloads_fit(#[trigger] entries[j].0) && payloads_fit(
                    entries[j].1,
                ),
            keys_unique(object_view(out)),
            converted_entries(*entries, i as nat) == Ok::<Seq<(Seq<char>, Json)>, Mp2JsonError>(
                object_view(out),
            ),
        decreases entries.len() - i,
    {
        match &entries[i].0 {
            MpValue::String(kb) => match utf8_text(kb) {
                Some(k) => match convert(&entries[i].1) {
                    Ok(j) => {
                        object_insert(&mut out, k, j);
                    },
                    Err(e) => {
                        proof {
                            lemma_entries_failure_stays(
                                *entries,
                                (i + 1) as nat,
                                entries.len() as nat,
                            );
                        }
                        return Err(e);
                    },
                },
                None => {
                    proof {
                        lemma_entries_failure_stays(*entries, (i + 1) as nat, entries.len() as nat);
                    }
                    return Err(Mp2JsonError::InvalidString);
                },
            },
            _ => {
                proof {
                    lemma_entries_failure_stays(*entries, (i + 1) as nat, entries.len() as nat);
                }
                return Err(Mp2JsonError::MapKeyNotString);
            },
        }
        i += 1;
    }
    Ok(out)
}

} // verus!
