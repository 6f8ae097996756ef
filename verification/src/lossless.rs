//! Different documents print differently.

use crate::json::{self, Json};
use crate::members;
use crate::syntax::Generics;
use crate::typedefs::{self, TypeKind};
use vstd::prelude::*;
use vstd::string::*;

verus! {

/// What can stand behind a value.
pub open spec fn ends_value(rest: Seq<char>) -> bool {
    rest.len() == 0 || rest[0] == ',' || rest[0] == ']' || rest[0] == '}'
}

/// Where two values start alike, they are the same and end at the same place.
pub open spec fn told_apart(p: Seq<char>, q: Seq<char>) -> bool {
    forall|x: Seq<char>, y: Seq<char>|
        #![trigger p + x, q + y]
        ends_value(x) && ends_value(y) && p + x == q + y ==> p == q && x == y
}

/// No length of the document is left open.
pub open spec fn is_closed(j: Json) -> bool
    decreases j,
{
    match j {
        Json::Length(_) => false,
        Json::List(items) => forall|i: int| 0 <= i < items.len() ==> is_closed(#[trigger] items[i]),
        Json::Object(fields) => forall|i: int|
            0 <= i < fields.len() ==> is_closed((#[trigger] fields[i]).1),
        _ => true,
    }
}

/// The text can be told apart from that of every document.
spec fn is_distinct(p: Seq<char>) -> bool {
    forall|j: Json| is_closed(j) ==> told_apart(p, #[trigger] json::json_text(j))
}

/// The text is that of a document.
spec fn is_text(p: Seq<char>) -> bool {
    exists|j: Json| is_closed(j) && p == #[trigger] json::json_text(j)
}


proof fn lemma_field_closed(fields: Seq<(Seq<char>, Json)>, i: int)
    requires
        is_closed(Json::Object(fields)),
        0 <= i < fields.len(),
    ensures
        is_closed(fields[i].1),
{
    let j = Json::Object(fields);
    match j {
        Json::Object(list) => {
            assert(is_closed((list[i]).1));
        },
        _ => {},
    }
}

proof fn lemma_starts(j: Json)
    requires
        is_closed(j),
    ensures
        ({
            let t = json::json_text(j);
            &&& t.len() > 0
            &&& t[0] != ',' && t[0] != ']' && t[0] != '}'
            &&& (j is True) == (t[0] == 't')
            &&& (j is Number) == ('0' <= t[0] <= '9')
            &&& (j is Text) == (t[0] == '"')
            &&& (j is List) == (t[0] == '[')
            &&& (j is Object) == (t[0] == '{')
        }),
{
    match j {
        Json::Number(n) => json::lemma_decimal_digits(n),
        _ => {},
    }
}

// ---------------------------------------------------------------------------
// Entries of objects and items of lists
// ---------------------------------------------------------------------------

/// What stands behind the first part, up to the closing character and the rest.
spec fn behind_first(parts: Seq<Seq<char>>, close: char, rest: Seq<char>) -> Seq<char> {
    if parts.len() == 1 {
        seq![close] + rest
    } else {
        seq![','] + json::joined(parts.drop_first(), ',') + seq![close] + rest
    }
}

spec fn starts_part(p: Seq<char>) -> bool {
    p.len() > 0 && p[0] != ',' && p[0] != ']' && p[0] != '}'
}

proof fn lemma_parts(
    a: Seq<Seq<char>>,
    b: Seq<Seq<char>>,
    close: char,
    x: Seq<char>,
    y: Seq<char>,
)
    requires
        close == ']' || close == '}',
        forall|i: int| 0 <= i < a.len() ==> starts_part(#[trigger] a[i]),
        forall|i: int| 0 <= i < b.len() ==> starts_part(#[trigger] b[i]),
        forall|i: int, k: int|
            0 <= i < a.len() && 0 <= k < b.len() ==> told_apart(#[trigger] a[i], #[trigger] b[k]),
        json::joined(a, ',') + seq![close] + x == json::joined(b, ',') + seq![close] + y,
    ensures
        a == b,
        x == y,
    decreases a.len(),
{
    let left = json::joined(a, ',') + seq![close] + x;
    let right = json::joined(b, ',') + seq![close] + y;
    if a.len() > 1 {
        json::lemma_joined_front(a);
    }
    if b.len() > 1 {
        json::lemma_joined_front(b);
    }
    if a.len() > 0 {
        assert(left =~= a[0] + behind_first(a, close, x));
        assert(starts_part(a[0]));
        assert(left[0] == a[0][0]);
    } else {
        assert(left =~= seq![close] + x);
    }
    if b.len() > 0 {
        assert(right =~= b[0] + behind_first(b, close, y));
        assert(starts_part(b[0]));
        assert(right[0] == b[0][0]);
    } else {
        assert(right =~= seq![close] + y);
    }
    if a.len() == 0 || b.len() == 0 {
        assert(left[0] == right[0]);
        assert(a =~= b);
        assert(x =~= left.skip(1));
        assert(y =~= right.skip(1));
    } else {
        let p = behind_first(a, close, x);
        let q = behind_first(b, close, y);
        assert(told_apart(a[0], b[0]));
        assert(p == q);
        assert(p[0] == q[0]);
        if a.len() == 1 {
            assert(b.len() == 1);
            assert(a =~= b);
            assert(x =~= p.skip(1));
            assert(y =~= q.skip(1));
        } else {
            let a2 = a.drop_first();
            let b2 = b.drop_first();
            assert(b.len() > 1);
            assert(json::joined(a2, ',') + seq![close] + x =~= p.skip(1));
            assert(json::joined(b2, ',') + seq![close] + y =~= q.skip(1));
            assert forall|i: int| 0 <= i < a2.len() implies starts_part(#[trigger] a2[i]) by {
                assert(a2[i] == a[i + 1]);
            }
            assert forall|i: int| 0 <= i < b2.len() implies starts_part(#[trigger] b2[i]) by {
                assert(b2[i] == b[i + 1]);
            }
            assert forall|i: int, k: int| 0 <= i < a2.len() && 0 <= k < b2.len() implies told_apart(
                #[trigger] a2[i],
                #[trigger] b2[k],
            ) by {
                assert(told_apart(a[i + 1], b[k + 1]));
            }
            lemma_parts(a2, b2, close, x, y);
            assert(a =~= seq![a[0]] + a2);
            assert(b =~= seq![b[0]] + b2);
        }
    }
}

/// Entries can be told apart if their values can.
proof fn lemma_entry(ka: Seq<char>, a: Seq<char>, kb: Seq<char>, b: Seq<char>)
    requires
        told_apart(a, b),
    ensures
        starts_part(json::entry_text(ka, a)),
        told_apart(json::entry_text(ka, a), json::entry_text(kb, b)),
        json::entry_text(ka, a) == json::entry_text(kb, b) ==> ka == kb && a == b,
{
    let p = json::entry_text(ka, a);
    let q = json::entry_text(kb, b);
    assert forall|x: Seq<char>, y: Seq<char>|
        #![trigger p + x, q + y]
        ends_value(x) && ends_value(y) && p + x == q + y implies p == q && x == y && ka == kb && a
        == b by {
        let ra = seq![':'] + (a + x);
        let rb = seq![':'] + (b + y);
        assert((p + x).skip(1) =~= json::escaped(ka) + seq!['"'] + ra);
        assert((q + y).skip(1) =~= json::escaped(kb) + seq!['"'] + rb);
        json::lemma_literal_ends(ka, kb, ra, rb);
        assert(a + x =~= ra.skip(1));
        assert(b + y =~= rb.skip(1));
    }
    if p == q {
        assert(p + Seq::empty() == q + Seq::empty());
    }
}

/// Objects with the same text have the same entries.
proof fn lemma_objects(
    a: Seq<(Seq<char>, Seq<char>)>,
    b: Seq<(Seq<char>, Seq<char>)>,
    x: Seq<char>,
    y: Seq<char>,
)
    requires
        forall|i: int| 0 <= i < a.len() ==> is_distinct((#[trigger] a[i]).1),
        forall|i: int| 0 <= i < b.len() ==> is_text((#[trigger] b[i]).1),
        json::object_text(a) + x == json::object_text(b) + y,
    ensures
        a == b,
        x == y,
{
    let p = json::entry_texts(a);
    let q = json::entry_texts(b);
    assert((json::object_text(a) + x).skip(1) =~= json::joined(p, ',') + seq!['}'] + x);
    assert((json::object_text(b) + y).skip(1) =~= json::joined(q, ',') + seq!['}'] + y);
    assert forall|i: int, k: int| 0 <= i < p.len() && 0 <= k < q.len() implies told_apart(
        #[trigger] p[i],
        #[trigger] q[k],
    ) by {
        lemma_told_apart(a[i].1, b[k].1);
        lemma_entry(a[i].0, a[i].1, b[k].0, b[k].1);
    }
    assert forall|i: int| 0 <= i < p.len() implies starts_part(#[trigger] p[i]) by {}
    assert forall|i: int| 0 <= i < q.len() implies starts_part(#[trigger] q[i]) by {}
    lemma_parts(p, q, '}', x, y);
    assert forall|i: int| 0 <= i < a.len() implies a[i] == b[i] by {
        lemma_told_apart(a[i].1, b[i].1);
        lemma_entry(a[i].0, a[i].1, b[i].0, b[i].1);
        assert(p[i] == q[i]);
    }
    assert(a.len() == p.len() && b.len() == q.len());
    assert(a =~= b);
}

proof fn lemma_told_apart(p: Seq<char>, q: Seq<char>)
    requires
        is_distinct(p),
        is_text(q),
    ensures
        told_apart(p, q),
{
    let j = choose|j: Json| is_closed(j) && q == #[trigger] json::json_text(j);
    assert(told_apart(p, json::json_text(j)));
}

// ---------------------------------------------------------------------------
// Documents
// ---------------------------------------------------------------------------

spec fn markers() -> spec_fn(nat) -> Seq<char> {
    |i: nat| json::marker_text(i)
}

/// The entries of an object, with their texts, in the order in which they print.
pub open spec fn printed_entries(fields: Seq<(Seq<char>, Json)>) -> Seq<(Seq<char>, Seq<char>)> {
    json::inserted(Seq::empty(), json::field_texts(fields, |i: nat| json::marker_text(i)))
}

proof fn lemma_entries_are_texts(fields: Seq<(Seq<char>, Json)>)
    requires
        is_closed(Json::Object(fields)),
    ensures
        forall|i: int|
            0 <= i < printed_entries(fields).len() ==> is_text(
                (#[trigger] printed_entries(fields)[i]).1,
            ),
{
    let texts = json::field_texts(fields, markers());
    let ok = |key: Seq<char>, t: Seq<char>| is_text(t);
    json::lemma_field_texts(fields, markers());
    assert forall|i: int| 0 <= i < texts.len() implies ok((#[trigger] texts[i]).0, texts[i].1) by {
        lemma_field_closed(fields, i);
        assert(texts[i].1 == json::json_text(fields[i].1));
    }
    json::lemma_inserted_all(Seq::empty(), texts, ok);
    assert forall|i: int| 0 <= i < printed_entries(fields).len() implies is_text(
        (#[trigger] printed_entries(fields)[i]).1,
    ) by {
        assert(ok(printed_entries(fields)[i].0, printed_entries(fields)[i].1));
    }
}

proof fn lemma_entries_are_distinct(fields: Seq<(Seq<char>, Json)>)
    requires
        forall|i: int|
            0 <= i < fields.len() ==> is_distinct(json::json_text((#[trigger] fields[i]).1)),
    ensures
        forall|i: int|
            0 <= i < printed_entries(fields).len() ==> is_distinct(
                (#[trigger] printed_entries(fields)[i]).1,
            ),
{
    let texts = json::field_texts(fields, markers());
    let ok = |key: Seq<char>, t: Seq<char>| is_distinct(t);
    json::lemma_field_texts(fields, markers());
    assert forall|i: int| 0 <= i < texts.len() implies ok((#[trigger] texts[i]).0, texts[i].1) by {
        assert(texts[i].1 == json::json_text(fields[i].1));
    }
    json::lemma_inserted_all(Seq::empty(), texts, ok);
    assert forall|i: int| 0 <= i < printed_entries(fields).len() implies is_distinct(
        (#[trigger] printed_entries(fields)[i]).1,
    ) by {
        assert(ok(printed_entries(fields)[i].0, printed_entries(fields)[i].1));
    }
}

/// The text of a document ends where it can be told to end.
proof fn lemma_distinct(a: Json)
    requires
        is_closed(a),
    ensures
        is_distinct(json::json_text(a)),
    decreases a,
{
    let p = json::json_text(a);
    match a {
        Json::List(items) => {
            assert forall|i: int| 0 <= i < items.len() implies is_distinct(
                json::json_text(#[trigger] items[i]),
            ) by {
                assert(is_closed(items[i]));
                lemma_distinct(items[i]);
            }
        },
        Json::Object(fields) => {
            assert forall|i: int| 0 <= i < fields.len() implies is_distinct(
                json::json_text((#[trigger] fields[i]).1),
            ) by {
                assert(is_closed(fields[i].1));
                lemma_distinct(fields[i].1);
            }
        },
        _ => {},
    }
    assert forall|b: Json| is_closed(b) implies told_apart(p, #[trigger] json::json_text(b)) by {
        let q = json::json_text(b);
        assert forall|x: Seq<char>, y: Seq<char>|
            #![trigger p + x, q + y]
            ends_value(x) && ends_value(y) && p + x == q + y implies p == q && x == y by {
            lemma_starts(a);
            lemma_starts(b);
            assert((p + x)[0] == p[0] && (q + y)[0] == q[0]);
            lemma_same_text(a, b, x, y);
        }
    }
}

proof fn lemma_same_text(a: Json, b: Json, x: Seq<char>, y: Seq<char>)
    requires
        is_closed(a),
        is_closed(b),
        ends_value(x),
        ends_value(y),
        json::json_text(a) + x == json::json_text(b) + y,
        json::json_text(a)[0] == json::json_text(b)[0],
        a matches Json::List(items) ==> forall|i: int|
            0 <= i < items.len() ==> is_distinct(json::json_text(#[trigger] items[i])),
        a matches Json::Object(fields) ==> forall|i: int|
            0 <= i < fields.len() ==> is_distinct(json::json_text((#[trigger] fields[i]).1)),
    ensures
        json::json_text(a) == json::json_text(b),
        x == y,
{
    let p = json::json_text(a);
    let q = json::json_text(b);
    lemma_starts(a);
    lemma_starts(b);
    match (a, b) {
        (Json::True, Json::True) => {
            assert(x =~= (p + x).skip(4));
            assert(y =~= (q + y).skip(4));
        },
        (Json::Number(m), Json::Number(n)) => {
            json::lemma_decimal_digits(m);
            json::lemma_decimal_digits(n);
            let all = p + x;
            if p.len() < q.len() {
                assert((q + y)[p.len() as int] == q[p.len() as int]);
                assert((q + y).len() > p.len());
                assert(x.len() > 0);
                assert(all[p.len() as int] == x[0]);
            }
            if q.len() < p.len() {
                assert(all[q.len() as int] == p[q.len() as int]);
                assert(y.len() > 0);
                assert((q + y)[q.len() as int] == y[0]);
            }
            assert(p =~= all.take(p.len() as int));
            assert(q =~= (q + y).take(p.len() as int));
            assert(x =~= all.skip(p.len() as int));
            assert(y =~= (q + y).skip(p.len() as int));
        },
        (Json::Text(s), Json::Text(t)) => {
            assert((p + x).skip(1) =~= json::escaped(s) + seq!['"'] + x);
            assert((q + y).skip(1) =~= json::escaped(t) + seq!['"'] + y);
            json::lemma_literal_ends(s, t, x, y);
        },
        (Json::List(items), Json::List(others)) => {
            let u = json::item_texts(items, markers());
            let v = json::item_texts(others, markers());
            json::lemma_item_texts(items, markers());
            json::lemma_item_texts(others, markers());
            assert((p + x).skip(1) =~= json::joined(u, ',') + seq![']'] + x);
            assert((q + y).skip(1) =~= json::joined(v, ',') + seq![']'] + y);
            assert forall|i: int, k: int| 0 <= i < u.len() && 0 <= k < v.len() implies told_apart(
                #[trigger] u[i],
                #[trigger] v[k],
            ) by {
                assert(is_closed(others[k]));
                assert(u[i] == json::json_text(items[i]));
                assert(v[k] == json::json_text(others[k]));
                assert(is_distinct(json::json_text(items[i])));
            }
            assert forall|i: int| 0 <= i < u.len() implies starts_part(#[trigger] u[i]) by {
                assert(is_closed(items[i]));
                lemma_starts(items[i]);
                assert(u[i] == json::json_text(items[i]));
            }
            assert forall|i: int| 0 <= i < v.len() implies starts_part(#[trigger] v[i]) by {
                assert(is_closed(others[i]));
                lemma_starts(others[i]);
                assert(v[i] == json::json_text(others[i]));
            }
            lemma_parts(u, v, ']', x, y);
        },
        (Json::Object(fields), Json::Object(others)) => {
            lemma_entries_are_distinct(fields);
            lemma_entries_are_texts(others);
            lemma_objects(printed_entries(fields), printed_entries(others), x, y);
        },
        _ => {},
    }
}

/// Objects that print alike have the same keys, and print the same text under
/// each of them.
pub proof fn law_objects_are_lossless(
    a: Seq<(Seq<char>, Json)>,
    b: Seq<(Seq<char>, Json)>,
    key: Seq<char>,
)
    requires
        is_closed(Json::Object(a)),
        is_closed(Json::Object(b)),
        json::json_text(Json::Object(a)) == json::json_text(Json::Object(b)),
    ensures
        match (members::member(a, key), members::member(b, key)) {
            (Some(x), Some(y)) => json::json_text(x) == json::json_text(y),
            (None, None) => true,
            _ => false,
        },
{
    assert forall|i: int| 0 <= i < a.len() implies is_distinct(
        json::json_text((#[trigger] a[i]).1),
    ) by {
        assert(is_closed(a[i].1));
        lemma_distinct(a[i].1);
    }
    lemma_entries_are_distinct(a);
    lemma_entries_are_texts(b);
    let p = json::json_text(Json::Object(a));
    let q = json::json_text(Json::Object(b));
    assert(p + Seq::empty() == q + Seq::empty());
    lemma_objects(printed_entries(a), printed_entries(b), Seq::empty(), Seq::empty());
    lemma_lookup(a, key);
    lemma_lookup(b, key);
}

// ---------------------------------------------------------------------------
// Members in print
// ---------------------------------------------------------------------------

spec fn lookup(entries: Seq<(Seq<char>, Seq<char>)>, key: Seq<char>) -> Option<Seq<char>>
    decreases entries.len(),
{
    if entries.len() == 0 {
        None
    } else if entries[0].0 == key {
        Some(entries[0].1)
    } else {
        lookup(entries.drop_first(), key)
    }
}

proof fn lemma_lookup_insert(
    entries: Seq<(Seq<char>, Seq<char>)>,
    k: Seq<char>,
    v: Seq<char>,
    key: Seq<char>,
)
    ensures
        lookup(json::entry_insert(entries, k, v), key) == if k == key {
            Some(v)
        } else {
            lookup(entries, key)
        },
    decreases entries.len(),
{
    let out = json::entry_insert(entries, k, v);
    if entries.len() == 0 {
        assert(out.drop_first() =~= Seq::empty());
        assert(lookup(out.drop_first(), key) is None);
    } else if entries[0].0 == k {
        assert(out.drop_first() =~= entries.drop_first());
    } else if json::str_less(k, entries[0].0) {
        assert(out.drop_first() =~= entries);
    } else {
        lemma_lookup_insert(entries.drop_first(), k, v, key);
        assert(out.drop_first() =~= json::entry_insert(entries.drop_first(), k, v));
    }
}

/// The text under a key of the fields, the last one counting.
spec fn last_text(fields: Seq<(Seq<char>, Seq<char>)>, key: Seq<char>) -> Option<Seq<char>>
    decreases fields.len(),
{
    if fields.len() == 0 {
        None
    } else if fields.last().0 == key {
        Some(fields.last().1)
    } else {
        last_text(fields.drop_last(), key)
    }
}

proof fn lemma_lookup_inserted(
    entries: Seq<(Seq<char>, Seq<char>)>,
    fields: Seq<(Seq<char>, Seq<char>)>,
    key: Seq<char>,
)
    ensures
        lookup(json::inserted(entries, fields), key) == match last_text(fields, key) {
            Some(t) => Some(t),
            None => lookup(entries, key),
        },
    decreases fields.len(),
{
    if fields.len() > 0 {
        let (k, v) = fields[0];
        let rest = fields.drop_first();
        let next = json::entry_insert(entries, k, v);
        lemma_lookup_insert(entries, k, v, key);
        lemma_lookup_inserted(next, rest, key);
        lemma_last_front(fields, key);
    }
}

proof fn lemma_last_front(fields: Seq<(Seq<char>, Seq<char>)>, key: Seq<char>)
    requires
        fields.len() > 0,
    ensures
        last_text(fields, key) == match last_text(fields.drop_first(), key) {
            Some(t) => Some(t),
            None => if fields[0].0 == key {
                Some(fields[0].1)
            } else {
                None
            },
        },
    decreases fields.len(),
{
    if fields.len() == 1 {
        assert(fields.drop_first() =~= Seq::empty());
        assert(fields.drop_last() =~= Seq::empty());
    } else {
        assert(fields.drop_last().drop_first() =~= fields.drop_first().drop_last());
        lemma_last_front(fields.drop_last(), key);
    }
}

proof fn lemma_lookup(fields: Seq<(Seq<char>, Json)>, key: Seq<char>)
    ensures
        lookup(printed_entries(fields), key) == match members::member(fields, key) {
            Some(j) => Some(json::json_text(j)),
            None => None,
        },
{
    lemma_lookup_inserted(Seq::empty(), json::field_texts(fields, markers()), key);
    lemma_last_text(fields, key);
}

proof fn lemma_last_text(fields: Seq<(Seq<char>, Json)>, key: Seq<char>)
    ensures
        last_text(json::field_texts(fields, markers()), key) == match members::member(fields, key) {
            Some(j) => Some(json::json_text(j)),
            None => None,
        },
    decreases fields.len(),
{
    if fields.len() > 0 {
        let texts = json::field_texts(fields, markers());
        lemma_last_text(fields.drop_last(), key);
        assert(texts.drop_last() =~= json::field_texts(fields.drop_last(), markers()));
    }
}

// ---------------------------------------------------------------------------
// Representations
// ---------------------------------------------------------------------------

/// Different representations print as different type definitions.
pub proof fn law_representations_are_lossless(
    name: Seq<char>,
    lines: Seq<String>,
    a: TypeKind,
    b: TypeKind,
    generics: Generics,
    kind_name: Seq<char>,
    payload: Json,
)
    requires
        is_closed(payload),
        json::json_text(typedefs::type_def_json(name, lines, a, generics, kind_name, payload))
            == json::json_text(
            typedefs::type_def_json(name, lines, b, generics, kind_name, payload),
        ),
    ensures
        a == b,
{
    let left = typedefs::type_def_json(name, lines, a, generics, kind_name, payload);
    let right = typedefs::type_def_json(name, lines, b, generics, kind_name, payload);
    members::law_type_definitions_have_their_members(name, lines, a, generics, kind_name, payload);
    members::law_type_definitions_have_their_members(name, lines, b, generics, kind_name, payload);
    lemma_definition_closed(name, lines, a, generics, kind_name, payload);
    lemma_definition_closed(name, lines, b, generics, kind_name, payload);
    law_objects_are_lossless(left->Object_0, right->Object_0, "serialization"@);
    law_objects_are_lossless(left->Object_0, right->Object_0, "repr"@);
    if let TypeKind::BytemuckRepr(p) = a {
        if let TypeKind::BytemuckRepr(q) = b {
            let x = members::member(left->Object_0, "repr"@)->0->Object_0;
            let y = members::member(right->Object_0, "repr"@)->0->Object_0;
            lemma_member_closed(left->Object_0, "repr"@);
            lemma_member_closed(right->Object_0, "repr"@);
            law_objects_are_lossless(x, y, "packed"@);
            law_objects_are_lossless(x, y, "align"@);
            match (p.align, q.align) {
                (Some(m), Some(n)) => {
                    json::law_numbers_are_lossless(m as nat, n as nat);
                },
                _ => {},
            }
            assert(p.packed == q.packed);
            assert(p.align == q.align);
        }
    }
}

proof fn lemma_member_closed(fields: Seq<(Seq<char>, Json)>, key: Seq<char>)
    requires
        is_closed(Json::Object(fields)),
    ensures
        members::member(fields, key) matches Some(j) ==> is_closed(j),
    decreases fields.len(),
{
    if fields.len() > 0 {
        lemma_field_closed(fields, fields.len() - 1);
        let front = fields.drop_last();
        assert forall|i: int| 0 <= i < front.len() implies is_closed((#[trigger] front[i]).1) by {
            lemma_field_closed(fields, i);
        }
        lemma_member_closed(front, key);
    }
}

proof fn lemma_definition_closed(
    name: Seq<char>,
    lines: Seq<String>,
    kind: TypeKind,
    generics: Generics,
    kind_name: Seq<char>,
    payload: Json,
)
    requires
        is_closed(payload),
    ensures
        is_closed(typedefs::type_def_json(name, lines, kind, generics, kind_name, payload)),
{
    let head = typedefs::header_fields(name, lines, kind, generics);
    let inner = typedefs::type_fields(kind_name, payload);
    let all = head.push(("type"@, Json::Object(inner)));
    assert forall|i: int| 0 <= i < inner.len() implies is_closed((#[trigger] inner[i]).1) by {}
    assert(is_closed(Json::Object(inner)));
    lemma_header_closed(name, lines, kind, generics);
    assert forall|i: int| 0 <= i < all.len() implies is_closed((#[trigger] all[i]).1) by {
        if i < head.len() {
            assert(all[i] == head[i]);
        }
    }
}

proof fn lemma_header_closed(
    name: Seq<char>,
    lines: Seq<String>,
    kind: TypeKind,
    generics: Generics,
)
    ensures
        forall|i: int|
            0 <= i < typedefs::header_fields(name, lines, kind, generics).len() ==> is_closed(
                (#[trigger] typedefs::header_fields(name, lines, kind, generics)[i]).1,
            ),
{
    let head = typedefs::header_fields(name, lines, kind, generics);
    let params = typedefs::generic_docs(generics.params@);
    let docs = crate::docs::docs_json(crate::text::views(lines));
    let kinds = typedefs::kind_fields(kind);
    lemma_params_closed(generics.params@);
    assert(is_closed(Json::List(params)));
    let items = docs->List_0;
    assert forall|i: int| 0 <= i < items.len() implies is_closed(#[trigger] items[i]) by {
        assert(items[i] is Text);
    }
    assert(is_closed(docs));
    if let TypeKind::BytemuckRepr(repr) = kind {
        let inner = typedefs::repr_fields(repr);
        assert forall|i: int| 0 <= i < inner.len() implies is_closed((#[trigger] inner[i]).1) by {}
        assert(is_closed(Json::Object(inner)));
    }
    assert forall|i: int| 0 <= i < head.len() implies is_closed((#[trigger] head[i]).1) by {
        let front = head.len() - kinds.len();
        if i >= front {
            assert(head[i] == kinds[i - front]);
        } else {
            assert(head[i] == ("name"@, Json::Text(name)) || head[i] == ("docs"@, docs) || head[i]
                == ("generics"@, Json::List(params)));
        }
    }
}

proof fn lemma_params_closed(params: Seq<crate::syntax::GenericParam>)
    ensures
        forall|i: int|
            0 <= i < typedefs::generic_docs(params).len() ==> is_closed(
                #[trigger] typedefs::generic_docs(params)[i],
            ),
    decreases params.len(),
{
    if params.len() > 0 {
        let front = typedefs::generic_docs(params.drop_last());
        lemma_params_closed(params.drop_last());
        if let Some(doc) = typedefs::generic_param_json(params.last()) {
            let fields = doc->Object_0;
            assert forall|i: int| 0 <= i < fields.len() implies is_closed(
                (#[trigger] fields[i]).1,
            ) by {}
            assert(is_closed(doc));
            assert forall|i: int|
                0 <= i < typedefs::generic_docs(params).len() implies is_closed(
                #[trigger] typedefs::generic_docs(params)[i],
            ) by {
                if i < front.len() {
                    assert(is_closed(front[i]));
                }
            }
        }
    }
}

} // verus!
