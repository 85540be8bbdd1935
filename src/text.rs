//! The textual value model: JSON values, and the ghost model they are read as.
use vstd::prelude::*;

verus! {

/// A JSON number. Floating-point numbers are carried as their IEEE 754 bit
/// patterns; they are turned into floats only where the value is printed.
#[derive(Debug, Clone, Copy, PartialEq, Eq, Structural)]
pub enum JsonNumber {
    Signed(i64),
    Unsigned(u64),
    Float32Bits(u32),
    Float64Bits(u64),
}

/// A JSON value. The entries of an object keep the order in which their keys
/// were first inserted, and no key occurs twice.
#[derive(Debug, PartialEq)]
pub enum JsonValue {
    Null,
    Boolean(bool),
    Number(JsonNumber),
    String(String),
    Array(Vec<JsonValue>),
    Object(Vec<(String, JsonValue)>),
}

/// What a `JsonValue` means: the same tree, with texts as character
/// sequences and containers as sequences.
pub enum Json {
    Null,
    Boolean(bool),
    Number(JsonNumber),
    Str(Seq<char>),
    Array(Seq<Json>),
    Object(Seq<(Seq<char>, Json)>),
}

/// The meaning of the first `n` elements of an array.
pub open spec fn items_view(items: Vec<JsonValue>, n: nat) -> Seq<Json>
    decreases items, n,
{
    if n == 0 || n > items.len() {
        Seq::empty()
    } else {
        items_view(items, (n - 1) as nat).push(items[n - 1].view())
    }
}

/// The meaning of the first `n` entries of an object.
pub open spec fn entries_view(entries: Vec<(String, JsonValue)>, n: nat) -> Seq<(Seq<char>, Json)>
    decreases entries, n,
{
    if n == 0 || n > entries.len() {
        Seq::empty()
    } else {
        entries_view(entries, (n - 1) as nat).push(
            (entries[n - 1].0@, entries[n - 1].1.view()),
        )
    }
}

impl View for JsonValue {
    type V = Json;

    open spec fn view(&self) -> Json
        decreases self, 0nat,
    {
        match self {
            JsonValue::Null => Json::Null,
            JsonValue::Boolean(b) => Json::Boolean(*b),
            JsonValue::Number(n) => Json::Number(*n),
            JsonValue::String(s) => Json::Str(s@),
            JsonValue::Array(items) => Json::Array(items_view(*items, items.len() as nat)),
            JsonValue::Object(entries) => Json::Object(entries_view(*entries, entries.len() as nat)),
        }
    }
}


/// Each position of `items_view` holds the meaning of the element there.
pub proof fn lemma_items_view(items: Vec<JsonValue>, n: nat)
    requires
        n <= items.len(),
    ensures
        items_view(items, n).len() == n,
        forall|i: int| 0 <= i < n ==> #[trigger] items_view(items, n)[i] == items[i].view(),
    decreases n,
{
    if n > 0 {
        lemma_items_view(items, (n - 1) as nat);
        assert(items_view(items, n) == items_view(items, (n - 1) as nat).push(items[n - 1].view()));
    }
}

/// Each position of `entries_view` holds the meaning of the entry there.
pub proof fn lemma_entries_view(entries: Vec<(String, JsonValue)>, n: nat)
    requires
        n <= entries.len(),
    ensures
        entries_view(entries, n).len() == n,
        forall|i: int|
            0 <= i < n ==> #[trigger] entries_view(entries, n)[i] == (
                entries[i].0@,
                entries[i].1.view(),
            ),
    decreases n,
{
    if n > 0 {
        lemma_entries_view(entries, (n - 1) as nat);
        assert(entries_view(entries, n) == entries_view(entries, (n - 1) as nat).push(
            (entries[n - 1].0@, entries[n - 1].1.view()),
        ));
    }
}

/// The meaning of all entries of an object.
pub open spec fn object_view(entries: Vec<(String, JsonValue)>) -> Seq<(Seq<char>, Json)> {
    entries_view(entries, entries.len() as nat)
}

/// No key occurs twice among the entries.
pub open spec fn keys_unique(o: Seq<(Seq<char>, Json)>) -> bool {
    forall|i: int, j: int| 0 <= i < j < o.len() ==> o[i].0 != o[j].0
}

/// Whether some entry has key `k`.
pub open spec fn has_key(o: Seq<(Seq<char>, Json)>, k: Seq<char>) -> bool {
    exists|i: int| 0 <= i < o.len() && o[i].0 == k
}

/// The value stored under `k`, if any.
pub open spec fn lookup(o: Seq<(Seq<char>, Json)>, k: Seq<char>) -> Option<Json> {
    if has_key(o, k) {
        Some(o[choose|i: int| 0 <= i < o.len() && o[i].0 == k].1)
    } else {
        None
    }
}

/// Inserting into an object: an existing key keeps its place and takes the
/// new value; a new key goes at the end.
pub open spec fn insert_entry(o: Seq<(Seq<char>, Json)>, k: Seq<char>, v: Json) -> Seq<(Seq<char>, Json)> {
    if has_key(o, k) {
        o.update(choose|i: int| 0 <= i < o.len() && o[i].0 == k, (k, v))
    } else {
        o.push((k, v))
    }
}

/// After an insertion, `k` holds the new value and every other key what it
/// held before; keys stay unique.
pub proof fn lemma_insert_entry(o: Seq<(Seq<char>, Json)>, k: Seq<char>, v: Json, q: Seq<char>)
    requires
        keys_unique(o),
    ensures
        keys_unique(insert_entry(o, k, v)),
        lookup(insert_entry(o, k, v), q) == if q == k {
            Some(v)
        } else {
            lookup(o, q)
        },
{
    let r = insert_entry(o, k, v);
    if has_key(o, k) {
        let i = choose|i: int| 0 <= i < o.len() && o[i].0 == k;
        assert(r[i].0 == k);
    } else {
        assert(r[o.len() as int].0 == k);
    }
    if q == k {
        assert(has_key(r, q));
        let j = choose|j: int| 0 <= j < r.len() && r[j].0 == q;
        if has_key(o, k) {
            let i = choose|i: int| 0 <= i < o.len() && o[i].0 == k;
            assert(j == i);
        } else {
            assert(j == o.len());
        }
    } else {
        if has_key(o, q) {
            let i = choose|i: int| 0 <= i < o.len() && o[i].0 == q;
            assert(r[i].0 == q);
            assert(has_key(r, q));
            let j = choose|j: int| 0 <= j < r.len() && r[j].0 == q;
            assert(j == i);
        } else {
            assert forall|j: int| 0 <= j < r.len() implies r[j].0 != q by {
                if j < o.len() {
                    assert(o[j].0 != q);
                }
            }
        }
    }
}

/// Inserts `value` under `key`: where the key is present its value is
/// replaced in place, else the entry is appended.
pub fn object_insert(entries: &mut Vec<(String, JsonValue)>, key: String, value: JsonValue)
    requires
        keys_unique(object_view(*old(entries))),
    ensures
        object_view(*final(entries)) == insert_entry(object_view(*old(entries)), key@, value@),
        keys_unique(object_view(*final(entries))),
{
    proof {
        lemma_entries_view(*entries, entries.len() as nat);
        lemma_insert_entry(object_view(*entries), key@, value@, key@);
    }
    let ghost o = object_view(*entries);
    let mut i: usize = 0;
    while i < entries.len()
        invariant
            i <= entries.len(),
            o == object_view(*entries),
            o == object_view(*old(entries)),
            o.len() == entries.len(),
            forall|j: int| 0 <= j < i ==> o[j].0 != key@,
            keys_unique(o),
            forall|j: int|
                0 <= j < o.len() ==> #[trigger] o[j] == (entries[j].0@, entries[j].1.view()),
        decreases entries.len() - i,
    {
        if entries[i].0 == key {
            assert(o[i as int].0 == key@);
            assert(has_key(o, key@));
            let ghost c = choose|c: int| 0 <= c < o.len() && o[c].0 == key@;
            assert(c == i);
            let ghost kv = key@;
            let ghost vv = value@;
            let ghost before = *entries;
            entries.set(i, (key, value));
            proof {
                lemma_entries_view(*entries, entries.len() as nat);
                assert(forall|j: int| 0 <= j < o.len() && j != i ==> entries[j] == before[j]);
                assert(object_view(*entries) =~= o.update(i as int, (kv, vv)));
            }
            return;
        }
        i += 1;
    }
    assert(!has_key(o, key@));
    let ghost kv = key@;
    let ghost vv = value@;
    let ghost before = *entries;
    entries.push((key, value));
    proof {
        lemma_entries_view(*entries, entries.len() as nat);
        assert(forall|j: int| 0 <= j < o.len() ==> entries[j] == before[j]);
        assert(object_view(*entries) =~= o.push((kv, vv)));
    }
}

} // verus!
