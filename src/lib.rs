//! Conversion of MessagePack values into JSON values, and the decisions of
//! the loop that streams one into the other, one line per value.

mod convert;
mod driver;
mod error;
mod laws;
mod text;
mod value;

pub use convert::{
    base64_of, binary_envelope, binary_object, convert, converted, converted_entries,
    converted_items, ext_envelope, ext_object, integer_number, key_text,
    lemma_entries_failure_stays, lemma_items_failure_stays, number_int, number_of_integer,
    result_view,
};
pub use driver::{step_matches, Converter, ReadOutcome, Step, WriteOutcome};
pub use error::Mp2JsonError;
pub use laws::{
    law_array_fails_fast, law_array_order_kept, law_bad_key_error, law_bad_key_fails,
    law_binary_envelope, law_encoded_text_recovered, law_integer_value_kept,
    law_last_duplicate_wins, law_valid_string_decoded,
};
pub use text::{
    entries_view, has_key, insert_entry, items_view, keys_unique, lemma_entries_view,
    lemma_insert_entry, lemma_items_view, lookup, object_insert, object_view, Json, JsonNumber,
    JsonValue,
};
pub use value::{payloads_fit, MpInteger, MpValue, MAX_PAYLOAD};
