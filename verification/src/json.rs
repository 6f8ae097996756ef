//! JSON values and the compact text that they print.
//!
//! Every JSON fragment of the IDL is a `serde_json::Value`, printed once at
//! the boundary. The executable code builds those values through the few
//! functions at the end of this file; the specifications describe them as
//! [`Json`] trees and say which text a tree prints.

use serde_json::Value;
use vstd::prelude::*;
use vstd::string::*;

verus! {

/// A JSON document as the specifications see it.
///
/// `Length(i)` stands for an array length that is known only when the IDL is
/// built: the `i`-th one of the document. Object fields are listed in the
/// order in which they are inserted.
pub enum Json {
    True,
    Number(nat),
    Text(Seq<char>),
    Length(nat),
    List(Seq<Json>),
    Object(Seq<(Seq<char>, Json)>),
}

/// The key of the one-field object that holds the place of a length.
pub const DYNAMIC_LEN_KEY: &'static str = "__anchor_private_const_len";

// ---------------------------------------------------------------------------
// Compact JSON text
// ---------------------------------------------------------------------------

pub open spec fn digit(d: nat) -> char {
    (48 + d) as char
}

/// The decimal digits of `n`, without leading zeros.
pub open spec fn decimal(n: nat) -> Seq<char>
    decreases n,
{
    if n < 10 {
        seq![digit(n)]
    } else {
        decimal(n / 10).push(digit(n % 10))
    }
}

pub open spec fn hex_digit(d: nat) -> char {
    if d < 10 {
        (48 + d) as char
    } else {
        (87 + d) as char
    }
}

/// What one character of a string becomes between the quotes.
pub open spec fn escaped_char(c: char) -> Seq<char> {
    if c == '"' {
        seq!['\\', '"']
    } else if c == '\\' {
        seq!['\\', '\\']
    } else if c == '\u{8}' {
        seq!['\\', 'b']
    } else if c == '\t' {
        seq!['\\', 't']
    } else if c == '\n' {
        seq!['\\', 'n']
    } else if c == '\u{c}' {
        seq!['\\', 'f']
    } else if c == '\r' {
        seq!['\\', 'r']
    } else if (c as nat) < 32 {
        seq!['\\', 'u', '0', '0', hex_digit(c as nat / 16), hex_digit(c as nat % 16)]
    } else {
        seq![c]
    }
}

pub open spec fn escaped(s: Seq<char>) -> Seq<char>
    decreases s.len(),
{
    if s.len() == 0 {
        Seq::empty()
    } else {
        escaped(s.drop_last()) + escaped_char(s.last())
    }
}

/// A JSON string literal.
pub open spec fn quoted(s: Seq<char>) -> Seq<char> {
    seq!['"'] + escaped(s) + seq!['"']
}

/// The parts one after the other, with `comma` between neighbours.
pub open spec fn joined<T>(parts: Seq<Seq<T>>, comma: T) -> Seq<T>
    decreases parts.len(),
{
    if parts.len() == 0 {
        Seq::empty()
    } else if parts.len() == 1 {
        parts[0]
    } else {
        joined(parts.drop_last(), comma) + seq![comma] + parts.last()
    }
}

pub open spec fn array_text(parts: Seq<Seq<char>>) -> Seq<char> {
    seq!['['] + joined(parts, ',') + seq![']']
}

pub open spec fn entry_text(key: Seq<char>, text: Seq<char>) -> Seq<char> {
    quoted(key) + seq![':'] + text
}

pub open spec fn entry_texts(entries: Seq<(Seq<char>, Seq<char>)>) -> Seq<Seq<char>> {
    Seq::new(entries.len(), |i: int| entry_text(entries[i].0, entries[i].1))
}

pub open spec fn object_text(entries: Seq<(Seq<char>, Seq<char>)>) -> Seq<char> {
    seq!['{'] + joined(entry_texts(entries), ',') + seq!['}']
}

/// Order of strings by their code points.
pub open spec fn str_less(a: Seq<char>, b: Seq<char>) -> bool
    decreases a.len(),
{
    if b.len() == 0 {
        false
    } else if a.len() == 0 {
        true
    } else if a[0] != b[0] {
        (a[0] as nat) < (b[0] as nat)
    } else {
        str_less(a.drop_first(), b.drop_first())
    }
}

/// Inserts `key` into entries that are sorted by key; an entry with the same
/// key is replaced.
pub open spec fn entry_insert<T>(entries: Seq<(Seq<char>, T)>, key: Seq<char>, value: T) -> Seq<
    (Seq<char>, T),
>
    decreases entries.len(),
{
    if entries.len() == 0 {
        seq![(key, value)]
    } else if entries[0].0 == key {
        entries.update(0, (key, value))
    } else if str_less(key, entries[0].0) {
        seq![(key, value)] + entries
    } else {
        seq![entries[0]] + entry_insert(entries.drop_first(), key, value)
    }
}

/// Inserts the fields one after the other.
pub open spec fn inserted<T>(
    entries: Seq<(Seq<char>, T)>,
    fields: Seq<(Seq<char>, T)>,
) -> Seq<(Seq<char>, T)>
    decreases fields.len(),
{
    if fields.len() == 0 {
        entries
    } else {
        inserted(entry_insert(entries, fields[0].0, fields[0].1), fields.drop_first())
    }
}

/// The compact text of a document whose `i`-th length prints as `lengths(i)`.
pub open spec fn text_with(j: Json, lengths: spec_fn(nat) -> Seq<char>) -> Seq<char>
    decreases j,
{
    match j {
        Json::True => seq!['t', 'r', 'u', 'e'],
        Json::Number(n) => decimal(n),
        Json::Text(s) => quoted(s),
        Json::Length(i) => lengths(i),
        Json::List(items) => array_text(item_texts(items, lengths)),
        Json::Object(fields) => object_text(
            inserted(Seq::empty(), field_texts(fields, lengths)),
        ),
    }
}

pub open spec fn item_texts(items: Seq<Json>, lengths: spec_fn(nat) -> Seq<char>) -> Seq<Seq<char>>
    decreases items,
{
    if items.len() == 0 {
        Seq::empty()
    } else {
        item_texts(items.drop_last(), lengths).push(text_with(items.last(), lengths))
    }
}

pub open spec fn field_texts(
    fields: Seq<(Seq<char>, Json)>,
    lengths: spec_fn(nat) -> Seq<char>,
) -> Seq<(Seq<char>, Seq<char>)>
    decreases fields,
{
    if fields.len() == 0 {
        Seq::empty()
    } else {
        field_texts(fields.drop_last(), lengths).push(
            (fields.last().0, text_with(fields.last().1, lengths)),
        )
    }
}

/// The text that holds the place of the `i`-th length.
pub open spec fn marker_text(i: nat) -> Seq<char> {
    object_text(seq![(DYNAMIC_LEN_KEY@, decimal(i))])
}

/// The compact text of a document, lengths still being markers.
pub open spec fn json_text(j: Json) -> Seq<char> {
    text_with(j, |i: nat| marker_text(i))
}

// ---------------------------------------------------------------------------
// serde_json
// ---------------------------------------------------------------------------

#[verifier::external_type_specification]
#[verifier::external_body]
pub struct ExValue(Value);

#[verifier::external_type_specification]
#[verifier::external_body]
#[verifier::reject_recursive_types(K)]
#[verifier::reject_recursive_types(V)]
pub struct ExJsonMap<K, V>(serde_json::Map<K, V>);

/// The compact text that a JSON value holds: what `Value::to_string` prints.
pub uninterp spec fn value_text(v: Value) -> Seq<char>;

/// What a JSON map holds, in the order in which it is walked: each key with
/// the compact text of its value.
pub uninterp spec fn map_entries(m: serde_json::Map<String, Value>) -> Seq<(Seq<char>, Seq<char>)>;

/// `Value::to_string`: the compact form of the value.
#[verifier::external_body]
pub(crate) fn value_to_string(value: &Value) -> (text: String)
    ensures
        text@ == value_text(*value),
{
    value.to_string()
}

/// `Value::String`: prints as a quoted string with JSON escapes.
#[verifier::external_body]
fn string_value(s: &str) -> (value: Value)
    ensures
        value_text(value) == quoted(s@),
{
    Value::String(s.to_owned())
}

/// `Value::Bool(true)`: prints as the word `true`.
#[verifier::external_body]
fn true_value() -> (value: Value)
    ensures
        value_text(value) == seq!['t', 'r', 'u', 'e'],
{
    Value::Bool(true)
}

/// `Value::from` of a `usize`: prints as the decimal digits.
#[verifier::external_body]
fn usize_value(n: usize) -> (value: Value)
    ensures
        value_text(value) == decimal(n as nat),
{
    Value::from(n)
}

/// `Value::Array`: prints the items between brackets, separated by commas.
#[verifier::external_body]
fn array_value(items: Vec<Value>) -> (value: Value)
    ensures
        value_text(value) == array_text(
            Seq::new(items@.len(), |i: int| value_text(items@[i])),
        ),
{
    Value::Array(items)
}

/// `Value::Object`: prints the entries of the map between braces, separated
/// by commas, each as its quoted key, a colon and the text of its value.
#[verifier::external_body]
fn object_value(map: serde_json::Map<String, Value>) -> (value: Value)
    ensures
        value_text(value) == object_text(map_entries(map)),
{
    Value::Object(map)
}

/// `Map::new`: the empty map.
#[verifier::external_body]
fn map_new() -> (map: serde_json::Map<String, Value>)
    ensures
        map_entries(map) == Seq::<(Seq<char>, Seq<char>)>::empty(),
{
    serde_json::Map::new()
}

/// `Map::insert`: the map keeps its entries sorted by key and one entry for
/// each key. (It is the sorted map: the feature that keeps the order of
/// insertion is off.)
#[verifier::external_body]
fn map_insert(map: &mut serde_json::Map<String, Value>, key: &str, value: Value)
    ensures
        map_entries(*final(map)) == entry_insert(
            map_entries(*old(map)),
            key@,
            value_text(value),
        ),
{
    map.insert(key.to_owned(), value);
}

// ---------------------------------------------------------------------------
// Building documents
// ---------------------------------------------------------------------------

pub proof fn lemma_item_texts(items: Seq<Json>, lengths: spec_fn(nat) -> Seq<char>)
    ensures
        item_texts(items, lengths).len() == items.len(),
        forall|i: int|
            0 <= i < items.len() ==> #[trigger] item_texts(items, lengths)[i] == text_with(
                items[i],
                lengths,
            ),
    decreases items.len(),
{
    if items.len() > 0 {
        lemma_item_texts(items.drop_last(), lengths);
        assert forall|i: int| 0 <= i < items.len() implies #[trigger] item_texts(items, lengths)[i]
            == text_with(items[i], lengths) by {
            if i < items.len() - 1 {
                assert(items.drop_last()[i] == items[i]);
                assert(item_texts(items.drop_last(), lengths)[i] == text_with(items[i], lengths));
            }
        }
    }
}

pub proof fn lemma_field_texts(
    fields: Seq<(Seq<char>, Json)>,
    lengths: spec_fn(nat) -> Seq<char>,
)
    ensures
        field_texts(fields, lengths).len() == fields.len(),
        forall|i: int|
            0 <= i < fields.len() ==> #[trigger] field_texts(fields, lengths)[i] == (
                fields[i].0,
                text_with(fields[i].1, lengths),
            ),
    decreases fields.len(),
{
    if fields.len() > 0 {
        lemma_field_texts(fields.drop_last(), lengths);
        assert forall|i: int|
            0 <= i < fields.len() implies #[trigger] field_texts(fields, lengths)[i] == (
            fields[i].0,
            text_with(fields[i].1, lengths),
        ) by {
            if i < fields.len() - 1 {
                assert(fields.drop_last()[i] == fields[i]);
                assert(field_texts(fields.drop_last(), lengths)[i] == (
                    fields[i].0,
                    text_with(fields[i].1, lengths),
                ));
            }
        }
    }
}

/// A character that stands for itself in a string literal.
pub open spec fn is_plain(c: char) -> bool {
    c as nat >= 32 && c != '"' && c != '\\'
}

/// A string of characters that stand for themselves only gets quotes around
/// it.
pub proof fn lemma_quoted_plain(s: Seq<char>)
    requires
        forall|i: int| 0 <= i < s.len() ==> is_plain(#[trigger] s[i]),
    ensures
        escaped(s) == s,
        quoted(s) == seq!['"'] + s + seq!['"'],
    decreases s.len(),
{
    if s.len() > 0 {
        assert forall|i: int| 0 <= i < s.drop_last().len() implies is_plain(
            #[trigger] s.drop_last()[i],
        ) by {
            assert(s.drop_last()[i] == s[i]);
        }
        lemma_quoted_plain(s.drop_last());
        assert(is_plain(s[s.len() - 1]));
    }
    assert(escaped(s) =~= s);
}

proof fn lemma_entry_insert_all<T>(
    entries: Seq<(Seq<char>, T)>,
    key: Seq<char>,
    value: T,
    ok: spec_fn(Seq<char>, T) -> bool,
)
    requires
        forall|i: int| 0 <= i < entries.len() ==> ok((#[trigger] entries[i]).0, entries[i].1),
        ok(key, value),
    ensures
        forall|i: int|
            0 <= i < entry_insert(entries, key, value).len() ==> ok(
                (#[trigger] entry_insert(entries, key, value)[i]).0,
                entry_insert(entries, key, value)[i].1,
            ),
        entry_insert(entries, key, value).len() > 0,
    decreases entries.len(),
{
    let out = entry_insert(entries, key, value);
    if entries.len() > 0 && entries[0].0 != key && !str_less(key, entries[0].0) {
        let tail = entries.drop_first();
        assert forall|i: int| 0 <= i < tail.len() implies ok((#[trigger] tail[i]).0, tail[i].1) by {
            assert(tail[i] == entries[i + 1]);
        }
        lemma_entry_insert_all(tail, key, value, ok);
        assert forall|i: int| 0 <= i < out.len() implies ok((#[trigger] out[i]).0, out[i].1) by {
            if i > 0 {
                assert(out[i] == entry_insert(tail, key, value)[i - 1]);
            }
        }
    } else {
        assert forall|i: int| 0 <= i < out.len() implies ok((#[trigger] out[i]).0, out[i].1) by {
            if entries.len() > 0 && i > 0 {
                assert(out[i] == entries[i] || out[i] == entries[i - 1]);
            }
        }
    }
}

/// What holds of all entries and of all fields holds of the entries with the
/// fields inserted.
pub proof fn lemma_inserted_all<T>(
    entries: Seq<(Seq<char>, T)>,
    fields: Seq<(Seq<char>, T)>,
    ok: spec_fn(Seq<char>, T) -> bool,
)
    requires
        forall|i: int| 0 <= i < entries.len() ==> ok((#[trigger] entries[i]).0, entries[i].1),
        forall|i: int| 0 <= i < fields.len() ==> ok((#[trigger] fields[i]).0, fields[i].1),
    ensures
        forall|i: int|
            0 <= i < inserted(entries, fields).len() ==> ok(
                (#[trigger] inserted(entries, fields)[i]).0,
                inserted(entries, fields)[i].1,
            ),
    decreases fields.len(),
{
    if fields.len() > 0 {
        let tail = fields.drop_first();
        lemma_entry_insert_all(entries, fields[0].0, fields[0].1, ok);
        assert forall|i: int| 0 <= i < tail.len() implies ok((#[trigger] tail[i]).0, tail[i].1) by {
            assert(tail[i] == fields[i + 1]);
        }
        let next = entry_insert(entries, fields[0].0, fields[0].1);
        lemma_inserted_all(next, tail, ok);
        assert(inserted(entries, fields) == inserted(next, tail));
    } else {
        assert(inserted(entries, fields) == entries);
    }
}

/// A JSON string.
pub(crate) fn text_json(s: &str) -> (value: Value)
    ensures
        value_text(value) == json_text(Json::Text(s@)),
{
    string_value(s)
}

/// The JSON value `true`.
pub(crate) fn true_json() -> (value: Value)
    ensures
        value_text(value) == json_text(Json::True),
{
    true_value()
}

/// A JSON number.
pub(crate) fn number_json(n: usize) -> (value: Value)
    ensures
        value_text(value) == json_text(Json::Number(n as nat)),
{
    usize_value(n)
}

/// The values print as the documents.
pub open spec fn items_print(items: Seq<Value>, docs: Seq<Json>) -> bool {
    &&& items.len() == docs.len()
    &&& forall|i: int|
        0 <= i < docs.len() ==> #[trigger] value_text(items[i]) == json_text(docs[i])
}

/// The fields have the keys of the documents and print as they do.
pub open spec fn fields_print(fields: Seq<(&str, Value)>, docs: Seq<(Seq<char>, Json)>) -> bool {
    &&& fields.len() == docs.len()
    &&& forall|i: int|
        #![trigger fields[i]]
        0 <= i < docs.len() ==> fields[i].0@ == docs[i].0 && value_text(fields[i].1) == json_text(
            docs[i].1,
        )
}

/// A JSON array whose items print as the documents `docs`.
pub(crate) fn list_json(items: Vec<Value>, Ghost(docs): Ghost<Seq<Json>>) -> (value: Value)
    requires
        items_print(items@, docs),
    ensures
        value_text(value) == json_text(Json::List(docs)),
{
    proof {
        let lengths = |i: nat| marker_text(i);
        lemma_item_texts(docs, lengths);
        assert(Seq::new(items@.len(), |i: int| value_text(items@[i])) =~= item_texts(
            docs,
            lengths,
        ));
    }
    array_value(items)
}

/// A JSON object whose fields are inserted in order; the values print as the
/// documents in `docs`.
pub(crate) fn object_json(
    fields: Vec<(&str, Value)>,
    Ghost(docs): Ghost<Seq<(Seq<char>, Json)>>,
) -> (value: Value)
    requires
        fields_print(fields@, docs),
    ensures
        value_text(value) == json_text(Json::Object(docs)),
{
    let ghost lengths = |i: nat| marker_text(i);
    let ghost texts = field_texts(docs, lengths);
    let mut fields = fields;
    let mut map = map_new();
    proof {
        lemma_field_texts(docs, lengths);
        assert(texts.skip(0) =~= texts);
    }
    let ghost mut done: int = 0;
    while fields.len() > 0
        invariant
            0 <= done <= docs.len(),
            texts == field_texts(docs, lengths),
            texts.len() == docs.len(),
            lengths == (|i: nat| marker_text(i)),
            forall|i: int|
                0 <= i < docs.len() ==> #[trigger] texts[i] == (
                    docs[i].0,
                    text_with(docs[i].1, lengths),
                ),
            fields@.len() == docs.len() - done,
            forall|i: int|
                #![trigger fields@[i]]
                0 <= i < fields@.len() ==> fields@[i].0@ == docs[done + i].0 && value_text(
                    fields@[i].1,
                ) == json_text(docs[done + i].1),
            inserted(map_entries(map), texts.skip(done)) == inserted(
                Seq::<(Seq<char>, Seq<char>)>::empty(),
                texts,
            ),
        decreases fields.len(),
    {
        let ghost before = fields@;
        let (key, value) = fields.remove(0);
        map_insert(&mut map, key, value);
        proof {
            assert(before[0] == (key, value));
            assert(texts.skip(done)[0] == texts[done]);
            assert(texts.skip(done).drop_first() =~= texts.skip(done + 1));
            assert forall|i: int| #![trigger fields@[i]] 0 <= i < fields@.len() implies fields@[i].0@
                == docs[done + 1 + i].0 && value_text(fields@[i].1) == json_text(
                docs[done + 1 + i].1,
            ) by {
                assert(fields@[i] == before[i + 1]);
            }
            done = done + 1;
        }
    }
    proof {
        assert(texts.skip(done) =~= Seq::empty());
    }
    object_value(map)
}

// ---------------------------------------------------------------------------
// String literals are lossless
// ---------------------------------------------------------------------------

proof fn lemma_escaped_front(s: Seq<char>)
    requires
        s.len() > 0,
    ensures
        escaped(s) == escaped_char(s[0]) + escaped(s.drop_first()),
    decreases s.len(),
{
    if s.len() == 1 {
        assert(s.drop_last() =~= Seq::empty());
        assert(s.drop_first() =~= Seq::empty());
        assert(escaped(Seq::empty()) =~= Seq::empty());
        assert(escaped(s) =~= escaped_char(s[0]) + escaped(s.drop_first()));
    } else {
        let front = s.drop_last();
        lemma_escaped_front(front);
        assert(front.drop_first() =~= s.drop_first().drop_last());
        assert(escaped(s) =~= escaped_char(s[0]) + escaped(s.drop_first()));
    }
}

/// Two escape sequences with a common continuation are the same.
proof fn lemma_escapes_differ(c: char, d: char, x: Seq<char>, y: Seq<char>)
    requires
        escaped_char(c) + x == escaped_char(d) + y,
    ensures
        c == d,
        x == y,
{
    let left = escaped_char(c) + x;
    let right = escaped_char(d) + y;
    assert(left[0] == escaped_char(c)[0]);
    assert(right[0] == escaped_char(d)[0]);
    if c != d {
        if escaped_char(c).len() > 1 && escaped_char(d).len() > 1 {
            assert(left[1] == escaped_char(c)[1]);
            assert(right[1] == escaped_char(d)[1]);
            if escaped_char(c).len() == 6 && escaped_char(d).len() == 6 {
                assert(left[4] == escaped_char(c)[4] && right[4] == escaped_char(d)[4]);
                assert(left[5] == escaped_char(c)[5] && right[5] == escaped_char(d)[5]);
                assert(c as nat / 16 == d as nat / 16);
                assert(c as nat % 16 == d as nat % 16);
            }
        }
    }
    assert(x =~= left.skip(escaped_char(c).len() as int));
    assert(y =~= right.skip(escaped_char(d).len() as int));
}

proof fn lemma_escaped_is_injective(a: Seq<char>, b: Seq<char>)
    requires
        escaped(a) == escaped(b),
    ensures
        a == b,
    decreases a.len(),
{
    if a.len() == 0 {
        assert(escaped(a).len() == 0);
        if b.len() > 0 {
            lemma_escaped_front(b);
            assert(escaped_char(b[0]).len() > 0);
        }
        assert(a =~= b);
    } else if b.len() == 0 {
        assert(escaped(b).len() == 0);
        lemma_escaped_front(a);
        assert(escaped_char(a[0]).len() > 0);
    } else {
        lemma_escaped_front(a);
        lemma_escaped_front(b);
        lemma_escapes_differ(a[0], b[0], escaped(a.drop_first()), escaped(b.drop_first()));
        lemma_escaped_is_injective(a.drop_first(), b.drop_first());
        assert(a =~= seq![a[0]] + a.drop_first());
        assert(b =~= seq![b[0]] + b.drop_first());
        assert(a == b);
    }
}

/// Different strings print as different string literals: nothing is lost.
pub proof fn law_string_literals_are_lossless(a: Seq<char>, b: Seq<char>)
    requires
        quoted(a) == quoted(b),
    ensures
        a == b,
{
    let n = escaped(a).len() as int;
    assert(quoted(a).len() == n + 2);
    assert(quoted(a).subrange(1, n + 1) =~= escaped(a));
    assert(quoted(b).subrange(1, n + 1) =~= escaped(b));
    lemma_escaped_is_injective(a, b);
}

/// What stands between the quotes of a string literal has no control
/// characters, and every quote in it has its backslash.
pub proof fn law_string_literals_are_well_formed(s: Seq<char>)
    ensures
        forall|k: int|
            0 <= k < escaped(s).len() ==> (#[trigger] escaped(s)[k]) as nat >= 32 && (escaped(s)[k]
                == '"' ==> k > 0 && escaped(s)[k - 1] == '\\'),
    decreases s.len(),
{
    if s.len() > 0 {
        let front = escaped(s.drop_last());
        let back = escaped_char(s.last());
        law_string_literals_are_well_formed(s.drop_last());
        assert forall|k: int| 0 <= k < escaped(s).len() implies (#[trigger] escaped(s)[k]) as nat
            >= 32 && (escaped(s)[k] == '"' ==> k > 0 && escaped(s)[k - 1] == '\\') by {
            if k >= front.len() {
                assert(escaped(s)[k] == back[k - front.len()]);
                if back[k - front.len()] == '"' {
                    assert(k - front.len() == 1 && back[0] == '\\');
                }
            } else {
                assert(escaped(s)[k] == front[k]);
            }
        }
    }
}

// ---------------------------------------------------------------------------
// Arrays are lossless
// ---------------------------------------------------------------------------

/// What stands behind an item of an array.
pub open spec fn ends_item(rest: Seq<char>) -> bool {
    rest.len() > 0 && (rest[0] == ',' || rest[0] == ']')
}

/// It can be told from the text of an array which of the two an item is.
pub open spec fn separable(p: Seq<char>, q: Seq<char>) -> bool {
    forall|x: Seq<char>, y: Seq<char>|
        #![trigger p + x, q + y]
        ends_item(x) && ends_item(y) && p + x == q + y ==> p == q
}

/// An item is not empty and does not start as an array ends.
pub open spec fn starts_item(p: Seq<char>) -> bool {
    p.len() > 0 && p[0] != ']'
}

pub proof fn lemma_joined_front(parts: Seq<Seq<char>>)
    requires
        parts.len() > 1,
    ensures
        joined(parts, ',') == parts[0] + seq![','] + joined(parts.drop_first(), ','),
    decreases parts.len(),
{
    let rest = parts.drop_first();
    if parts.len() == 2 {
        assert(parts.drop_last().len() == 1 && rest.len() == 1);
        assert(joined(parts.drop_last(), ',') == parts[0]);
        assert(joined(rest, ',') == parts.last());
    } else {
        lemma_joined_front(parts.drop_last());
        assert(parts.drop_last().drop_first() =~= rest.drop_last());
        assert(joined(parts, ',') =~= parts[0] + seq![','] + joined(rest, ','));
    }
}

/// What follows the first item of an array.
spec fn after_first(parts: Seq<Seq<char>>, rest: Seq<char>) -> Seq<char> {
    if parts.len() == 1 {
        seq![']'] + rest
    } else {
        seq![','] + joined(parts.drop_first(), ',') + seq![']'] + rest
    }
}

proof fn lemma_items_are_lossless(
    a: Seq<Seq<char>>,
    b: Seq<Seq<char>>,
    x: Seq<char>,
    y: Seq<char>,
)
    requires
        forall|i: int| 0 <= i < a.len() ==> starts_item(#[trigger] a[i]),
        forall|i: int| 0 <= i < b.len() ==> starts_item(#[trigger] b[i]),
        forall|i: int, k: int|
            0 <= i < a.len() && 0 <= k < b.len() ==> separable(#[trigger] a[i], #[trigger] b[k]),
        joined(a, ',') + seq![']'] + x == joined(b, ',') + seq![']'] + y,
    ensures
        a == b,
        x == y,
    decreases a.len(),
{
    let left = joined(a, ',') + seq![']'] + x;
    let right = joined(b, ',') + seq![']'] + y;
    if a.len() > 1 {
        lemma_joined_front(a);
    }
    if b.len() > 1 {
        lemma_joined_front(b);
    }
    if a.len() > 0 {
        assert(left =~= a[0] + after_first(a, x));
        assert(starts_item(a[0]));
    } else {
        assert(left =~= seq![']'] + x);
    }
    if b.len() > 0 {
        assert(right =~= b[0] + after_first(b, y));
        assert(starts_item(b[0]));
    } else {
        assert(right =~= seq![']'] + y);
    }
    if a.len() == 0 || b.len() == 0 {
        assert(left[0] == right[0]);
        assert(a =~= b);
        assert(x =~= left.skip(1));
        assert(y =~= right.skip(1));
    } else {
        let p = after_first(a, x);
        let q = after_first(b, y);
        assert(separable(a[0], b[0]));
        assert(a[0] == b[0]);
        assert(p =~= left.skip(a[0].len() as int));
        assert(q =~= right.skip(a[0].len() as int));
        assert(p[0] == q[0]);
        if a.len() == 1 {
            assert(a =~= b);
            assert(x =~= p.skip(1));
            assert(y =~= q.skip(1));
        } else {
            let a2 = a.drop_first();
            let b2 = b.drop_first();
            assert(joined(a2, ',') + seq![']'] + x =~= p.skip(1));
            assert(joined(b2, ',') + seq![']'] + y =~= q.skip(1));
            assert forall|i: int| 0 <= i < a2.len() implies starts_item(#[trigger] a2[i]) by {
                assert(a2[i] == a[i + 1]);
            }
            assert forall|i: int| 0 <= i < b2.len() implies starts_item(#[trigger] b2[i]) by {
                assert(b2[i] == b[i + 1]);
            }
            assert forall|i: int, k: int| 0 <= i < a2.len() && 0 <= k < b2.len() implies separable(
                #[trigger] a2[i],
                #[trigger] b2[k],
            ) by {
                assert(separable(a[i + 1], b[k + 1]));
            }
            lemma_items_are_lossless(a2, b2, x, y);
            assert(a =~= seq![a[0]] + a2);
            assert(b =~= seq![b[0]] + b2);
        }
    }
}

/// Arrays whose items can be told from each other print as different texts,
/// whatever follows them.
pub proof fn lemma_arrays_are_lossless(
    a: Seq<Seq<char>>,
    b: Seq<Seq<char>>,
    x: Seq<char>,
    y: Seq<char>,
)
    requires
        forall|i: int| 0 <= i < a.len() ==> starts_item(#[trigger] a[i]),
        forall|i: int| 0 <= i < b.len() ==> starts_item(#[trigger] b[i]),
        forall|i: int, k: int|
            0 <= i < a.len() && 0 <= k < b.len() ==> separable(#[trigger] a[i], #[trigger] b[k]),
        array_text(a) + x == array_text(b) + y,
    ensures
        a == b,
        x == y,
{
    assert((array_text(a) + x).skip(1) =~= joined(a, ',') + seq![']'] + x);
    assert((array_text(b) + y).skip(1) =~= joined(b, ',') + seq![']'] + y);
    lemma_items_are_lossless(a, b, x, y);
}

/// The end of a string literal can be told from its text.
pub proof fn lemma_literal_ends(a: Seq<char>, b: Seq<char>, x: Seq<char>, y: Seq<char>)
    requires
        escaped(a) + seq!['"'] + x == escaped(b) + seq!['"'] + y,
    ensures
        a == b,
        x == y,
    decreases a.len(),
{
    let left = escaped(a) + seq!['"'] + x;
    let right = escaped(b) + seq!['"'] + y;
    if a.len() > 0 {
        lemma_escaped_front(a);
        assert(left =~= escaped_char(a[0]) + (escaped(a.drop_first()) + seq!['"'] + x));
        assert(left[0] == escaped_char(a[0])[0] && left[0] != '"');
    } else {
        assert(left =~= seq!['"'] + x);
    }
    if b.len() > 0 {
        lemma_escaped_front(b);
        assert(right =~= escaped_char(b[0]) + (escaped(b.drop_first()) + seq!['"'] + y));
        assert(right[0] == escaped_char(b[0])[0] && right[0] != '"');
    } else {
        assert(right =~= seq!['"'] + y);
    }
    if a.len() == 0 || b.len() == 0 {
        assert(left[0] == right[0]);
        assert(a =~= b);
        assert(x =~= left.skip(1));
        assert(y =~= right.skip(1));
    } else {
        let p = escaped(a.drop_first()) + seq!['"'] + x;
        let q = escaped(b.drop_first()) + seq!['"'] + y;
        lemma_escapes_differ(a[0], b[0], p, q);
        lemma_literal_ends(a.drop_first(), b.drop_first(), x, y);
        assert(a =~= seq![a[0]] + a.drop_first());
        assert(b =~= seq![b[0]] + b.drop_first());
        assert(a == b);
    }
}

/// String literals can be told from each other in an array.
pub proof fn lemma_literals_are_separable(a: Seq<char>, b: Seq<char>)
    ensures
        starts_item(quoted(a)),
        separable(quoted(a), quoted(b)),
{
    let p = quoted(a);
    let q = quoted(b);
    assert forall|x: Seq<char>, y: Seq<char>|
        #![trigger p + x, q + y]
        ends_item(x) && ends_item(y) && p + x == q + y implies p == q by {
        assert((p + x).skip(1) =~= escaped(a) + seq!['"'] + x);
        assert((q + y).skip(1) =~= escaped(b) + seq!['"'] + y);
        lemma_literal_ends(a, b, x, y);
    }
}

pub proof fn lemma_decimal_digits(n: nat)
    ensures
        decimal(n).len() > 0,
        forall|i: int| 0 <= i < decimal(n).len() ==> '0' <= #[trigger] decimal(n)[i] <= '9',
    decreases n,
{
    if n >= 10 {
        lemma_decimal_digits(n / 10);
    }
}

/// Numbers can be told from each other in an array.
pub proof fn lemma_numbers_are_separable(m: nat, n: nat)
    ensures
        starts_item(decimal(m)),
        separable(decimal(m), decimal(n)),
{
    let p = decimal(m);
    let q = decimal(n);
    lemma_decimal_digits(m);
    lemma_decimal_digits(n);
    assert forall|x: Seq<char>, y: Seq<char>|
        #![trigger p + x, q + y]
        ends_item(x) && ends_item(y) && p + x == q + y implies p == q by {
        let all = p + x;
        if p.len() < q.len() {
            assert(all[p.len() as int] == x[0]);
            assert((q + y)[p.len() as int] == q[p.len() as int]);
        }
        if q.len() < p.len() {
            assert(all[q.len() as int] == p[q.len() as int]);
            assert((q + y)[q.len() as int] == y[0]);
        }
        assert(p =~= all.take(p.len() as int));
        assert(q =~= (q + y).take(p.len() as int));
    }
}

/// Different numbers have different digits.
pub proof fn law_numbers_are_lossless(m: nat, n: nat)
    requires
        decimal(m) == decimal(n),
    ensures
        m == n,
    decreases m,
{
    lemma_decimal_digits(m / 10);
    lemma_decimal_digits(n / 10);
    assert(decimal(m).last() == digit(m % 10));
    assert(decimal(n).last() == digit(n % 10));
    assert(digit(m % 10) as nat == 48 + m % 10);
    assert(digit(n % 10) as nat == 48 + n % 10);
    if m >= 10 && n >= 10 {
        assert(decimal(m).drop_last() =~= decimal(m / 10));
        assert(decimal(n).drop_last() =~= decimal(n / 10));
        law_numbers_are_lossless(m / 10, n / 10);
    }
}

} // verus!
