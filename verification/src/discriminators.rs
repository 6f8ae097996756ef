//! Discriminators and the account entries that carry them.

use crate::json::{self, Json};
use serde_json::Value;
use vstd::prelude::*;
use vstd::string::*;

verus! {

/// A list of numbers.
pub open spec fn bytes_json(bytes: Seq<u8>) -> Json {
    Json::List(Seq::new(bytes.len(), |i: int| Json::Number(bytes[i] as nat)))
}

pub(crate) fn disc_json_value(disc_bytes: &[u8]) -> (value: Value)
    ensures
        json::value_text(value) == json::json_text(bytes_json(disc_bytes@)),
{
    let mut values: Vec<Value> = Vec::new();
    let mut i: usize = 0;
    while i < disc_bytes.len()
        invariant
            i <= disc_bytes@.len(),
            values@.len() == i,
            forall|k: int|
                0 <= k < i ==> #[trigger] json::value_text(values@[k]) == json::json_text(
                    Json::Number(disc_bytes@[k] as nat),
                ),
        decreases disc_bytes@.len() - i,
    {
        values.push(json::number_json(disc_bytes[i] as usize));
        i = i + 1;
    }
    let ghost list = Seq::new(disc_bytes@.len(), |i: int| Json::Number(disc_bytes@[i] as nat));
    json::list_json(values, Ghost(list))
}

/// The bytes of a discriminator as a JSON array.
pub fn disc_json(disc_bytes: &[u8]) -> (text: String)
    ensures
        text@ == json::json_text(bytes_json(disc_bytes@)),
{
    json::value_to_string(&disc_json_value(disc_bytes))
}

/// `{"name":name,"discriminator":disc}`.
pub open spec fn account_entry_json(name: Seq<char>, disc: Seq<u8>) -> Json {
    Json::Object(seq![("name"@, Json::Text(name)), ("discriminator"@, bytes_json(disc))])
}

/// The text of the entry of an account type, if it has one.
pub open spec fn account_entry(name: Seq<char>, disc: Seq<u8>) -> Option<Seq<char>> {
    if disc.len() == 0 {
        None
    } else {
        Some(json::json_text(account_entry_json(name, disc)))
    }
}

/// The entry of an account type in the `accounts` list of a program. A type
/// with an empty discriminator has none: it is a plain type, not an account.
fn build_account_entry(name: &str, disc: &[u8]) -> (entry: Option<String>)
    ensures
        entry is None <==> disc@.len() == 0,
        entry matches Some(text) ==> text@ == json::json_text(account_entry_json(name@, disc@)),
        match entry {
            Some(text) => account_entry(name@, disc@) == Some(text@),
            None => account_entry(name@, disc@) is None,
        },
{
    if disc.len() == 0 {
        return None;
    }
    let ghost doc = seq![("name"@, Json::Text(name@)), ("discriminator"@, bytes_json(disc@))];
    let value = json::object_json(
        vec![("name", json::text_json(name)), ("discriminator", disc_json_value(disc))],
        Ghost(doc),
    );
    Some(json::value_to_string(&value))
}

/// The entry of an account type in the `accounts` list of a program, `None`
/// for a type with an empty discriminator.
pub fn build_account_entry_string(name: &str, disc: &[u8]) -> (entry: Option<String>)
    ensures
        entry is None <==> disc@.len() == 0,
        entry matches Some(text) ==> text@ == json::json_text(account_entry_json(name@, disc@)),
        match entry {
            Some(text) => account_entry(name@, disc@) == Some(text@),
            None => account_entry(name@, disc@) is None,
        },
{
    build_account_entry(name, disc)
}

// ---------------------------------------------------------------------------
// Laws
// ---------------------------------------------------------------------------

spec fn byte_texts(bytes: Seq<u8>) -> Seq<Seq<char>> {
    Seq::new(bytes.len(), |i: int| json::decimal(bytes[i] as nat))
}

proof fn lemma_bytes_text(bytes: Seq<u8>)
    ensures
        json::json_text(bytes_json(bytes)) == json::array_text(byte_texts(bytes)),
{
    let markers = |i: nat| json::marker_text(i);
    json::lemma_item_texts(bytes_json(bytes)->List_0, markers);
    assert(json::item_texts(bytes_json(bytes)->List_0, markers) =~= byte_texts(bytes));
}

/// A discriminator prints as the array of its bytes, in decimal digits.
pub proof fn law_discriminators_are_lists_of_numbers(bytes: Seq<u8>)
    ensures
        json::json_text(bytes_json(bytes)) == json::array_text(
            Seq::new(bytes.len(), |i: int| json::decimal(bytes[i] as nat)),
        ),
{
    lemma_bytes_text(bytes);
    assert(byte_texts(bytes) =~= Seq::new(bytes.len(), |i: int| json::decimal(bytes[i] as nat)));
}

/// The bytes can be told from the text of their array, whatever follows it.
proof fn lemma_bytes_are_lossless(a: Seq<u8>, b: Seq<u8>, x: Seq<char>, y: Seq<char>)
    requires
        json::array_text(byte_texts(a)) + x == json::array_text(byte_texts(b)) + y,
    ensures
        a == b,
        x == y,
{
    let left = byte_texts(a);
    let right = byte_texts(b);
    assert forall|i: int| 0 <= i < left.len() implies json::starts_item(#[trigger] left[i]) by {
        json::lemma_numbers_are_separable(a[i] as nat, a[i] as nat);
    }
    assert forall|i: int| 0 <= i < right.len() implies json::starts_item(#[trigger] right[i]) by {
        json::lemma_numbers_are_separable(b[i] as nat, b[i] as nat);
    }
    assert forall|i: int, k: int|
        0 <= i < left.len() && 0 <= k < right.len() implies json::separable(
        #[trigger] left[i],
        #[trigger] right[k],
    ) by {
        json::lemma_numbers_are_separable(a[i] as nat, b[k] as nat);
    }
    json::lemma_arrays_are_lossless(left, right, x, y);
    assert forall|i: int| 0 <= i < a.len() implies a[i] == b[i] by {
        assert(left[i] == right[i]);
        json::law_numbers_are_lossless(a[i] as nat, b[i] as nat);
    }
    assert(a =~= b);
}

/// Different discriminators print as different arrays.
pub proof fn law_discriminators_are_lossless(a: Seq<u8>, b: Seq<u8>)
    requires
        json::json_text(bytes_json(a)) == json::json_text(bytes_json(b)),
    ensures
        a == b,
{
    lemma_bytes_text(a);
    lemma_bytes_text(b);
    assert(json::json_text(bytes_json(a)) + Seq::empty() =~= json::json_text(bytes_json(a)));
    assert(json::json_text(bytes_json(b)) + Seq::empty() =~= json::json_text(bytes_json(b)));
    lemma_bytes_are_lossless(a, b, Seq::empty(), Seq::empty());
}

/// What an account entry prints before its discriminator.
spec fn entry_head() -> Seq<char> {
    seq!['{'] + json::quoted("discriminator"@) + seq![':']
}

/// What an account entry prints between its discriminator and its name.
spec fn entry_link() -> Seq<char> {
    seq![','] + json::quoted("name"@) + seq![':']
}

/// An account entry prints its discriminator before its name.
proof fn lemma_account_entry_text(name: Seq<char>, disc: Seq<u8>)
    ensures
        json::json_text(account_entry_json(name, disc)) == entry_head() + (json::array_text(
            byte_texts(disc),
        ) + (entry_link() + json::quoted(name) + seq!['}'])),
{
    reveal_strlit("name");
    reveal_strlit("discriminator");
    let markers = |i: nat| json::marker_text(i);
    let fields = account_entry_json(name, disc)->Object_0;
    let texts = json::field_texts(fields, markers);
    let named = ("name"@, json::quoted(name));
    let bytes = ("discriminator"@, json::array_text(byte_texts(disc)));
    json::lemma_field_texts(fields, markers);
    lemma_bytes_text(disc);
    assert(texts =~= seq![named, bytes]);
    assert("discriminator"@[0] == 'd' && "name"@[0] == 'n');
    assert(json::str_less("discriminator"@, "name"@));
    assert(json::entry_insert(Seq::empty(), named.0, named.1) =~= seq![named]);
    assert(json::entry_insert(seq![named], bytes.0, bytes.1) =~= seq![bytes, named]);
    assert(texts.drop_first() =~= seq![bytes]);
    assert(seq![bytes].drop_first() =~= Seq::empty());
    assert(json::inserted(seq![bytes, named], Seq::empty()) == seq![bytes, named]);
    assert(json::inserted(seq![named], seq![bytes]) == seq![bytes, named]);
    assert(json::inserted(Seq::empty(), texts) == seq![bytes, named]);
    let parts = json::entry_texts(seq![bytes, named]);
    let first = json::entry_text(bytes.0, bytes.1);
    let second = json::entry_text(named.0, named.1);
    assert(parts.drop_last() =~= seq![first]);
    assert(json::joined(seq![first], ',') == first);
    assert(json::joined(parts, ',') == first + seq![','] + second);
    assert(json::object_text(seq![bytes, named]) =~= entry_head() + (bytes.1 + (entry_link()
        + json::quoted(name) + seq!['}'])));
}

/// An account entry prints as an object with its discriminator and its name.
pub proof fn law_account_entries_are_objects(name: Seq<char>, disc: Seq<u8>)
    ensures
        json::json_text(account_entry_json(name, disc)) == json::object_text(
            seq![
                (
                    "discriminator"@,
                    json::array_text(
                        Seq::new(disc.len(), |i: int| json::decimal(disc[i] as nat)),
                    ),
                ),
                ("name"@, json::quoted(name)),
            ],
        ),
{
    let texts = Seq::new(disc.len(), |i: int| json::decimal(disc[i] as nat));
    let bytes = ("discriminator"@, json::array_text(texts));
    let named = ("name"@, json::quoted(name));
    lemma_account_entry_text(name, disc);
    assert(byte_texts(disc) =~= texts);
    let parts = json::entry_texts(seq![bytes, named]);
    let first = json::entry_text(bytes.0, bytes.1);
    let second = json::entry_text(named.0, named.1);
    assert(parts.drop_last() =~= seq![first]);
    assert(json::joined(seq![first], ',') == first);
    assert(json::joined(parts, ',') == first + seq![','] + second);
    assert(json::object_text(seq![bytes, named]) =~= entry_head() + (bytes.1 + (entry_link()
        + json::quoted(name) + seq!['}'])));
}

/// A type has an entry exactly if its discriminator is not empty: the object
/// with the discriminator and the name.
pub proof fn law_types_with_a_discriminator_have_an_entry(name: Seq<char>, disc: Seq<u8>)
    ensures
        account_entry(name, disc) == if disc.len() == 0 {
            None
        } else {
            Some(
                json::object_text(
                    seq![
                        (
                            "discriminator"@,
                            json::array_text(
                                Seq::new(disc.len(), |i: int| json::decimal(disc[i] as nat)),
                            ),
                        ),
                        ("name"@, json::quoted(name)),
                    ],
                ),
            )
        },
{
    law_account_entries_are_objects(name, disc);
}

/// Account entries with the same text are of the same name and discriminator.
pub proof fn law_account_entries_are_lossless(
    a_name: Seq<char>,
    a_disc: Seq<u8>,
    b_name: Seq<char>,
    b_disc: Seq<u8>,
)
    requires
        json::json_text(account_entry_json(a_name, a_disc)) == json::json_text(
            account_entry_json(b_name, b_disc),
        ),
    ensures
        a_name == b_name,
        a_disc == b_disc,
{
    let head = entry_head();
    let link = entry_link();
    let a_tail = link + json::quoted(a_name) + seq!['}'];
    let b_tail = link + json::quoted(b_name) + seq!['}'];
    let a_rest = json::array_text(byte_texts(a_disc)) + a_tail;
    let b_rest = json::array_text(byte_texts(b_disc)) + b_tail;
    lemma_account_entry_text(a_name, a_disc);
    lemma_account_entry_text(b_name, b_disc);
    assert((head + a_rest).skip(head.len() as int) =~= a_rest);
    assert((head + b_rest).skip(head.len() as int) =~= b_rest);
    lemma_bytes_are_lossless(a_disc, b_disc, a_tail, b_tail);
    let n = link.len() as int;
    assert(a_tail.subrange(n, a_tail.len() - 1) =~= json::quoted(a_name));
    assert(b_tail.subrange(n, b_tail.len() - 1) =~= json::quoted(b_name));
    json::law_string_literals_are_lossless(a_name, b_name);
}

} // verus!
