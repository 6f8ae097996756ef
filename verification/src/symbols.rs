//! Documents as sequences of texts and open lengths.
//!
//! The text of a document is a sequence of symbols: pieces of text, and the
//! places of the lengths that are left open. What the places become, markers or
//! numbers, is a matter of expanding them. The lemmas here show that splitting
//! the text at the markers finds these places.

use crate::json::{self, Json};
use crate::splice;
use crate::text;
use vstd::prelude::*;
use vstd::string::*;

verus! {

pub enum Sym {
    Text(Seq<char>),
    Length(nat),
}

/// A single character.
pub open spec fn char_sym(c: char) -> Sym {
    Sym::Text(seq![c])
}

pub open spec fn sym_text(sym: Sym, lengths: spec_fn(nat) -> Seq<char>) -> Seq<char> {
    match sym {
        Sym::Text(s) => s,
        Sym::Length(i) => lengths(i),
    }
}

/// The text of the symbols, the `i`-th length printing as `lengths(i)`.
pub open spec fn expand(syms: Seq<Sym>, lengths: spec_fn(nat) -> Seq<char>) -> Seq<char>
    decreases syms.len(),
{
    if syms.len() == 0 {
        Seq::empty()
    } else {
        expand(syms.drop_last(), lengths) + sym_text(syms.last(), lengths)
    }
}

/// A text for every length that is part of no marker and of no string literal.
pub open spec fn hash(i: nat) -> Seq<char> {
    seq!['#']
}

/// The open lengths among the symbols, in order.
pub open spec fn marks(syms: Seq<Sym>) -> Seq<nat>
    decreases syms.len(),
{
    if syms.len() == 0 {
        Seq::empty()
    } else {
        match syms.last() {
            Sym::Text(_) => marks(syms.drop_last()),
            Sym::Length(i) => marks(syms.drop_last()).push(i),
        }
    }
}

pub open spec fn entry_syms(key: Seq<char>, value: Seq<Sym>) -> Seq<Sym> {
    seq![Sym::Text(json::quoted(key))] + seq![char_sym(':')] + value
}

pub open spec fn all_entry_syms(entries: Seq<(Seq<char>, Seq<Sym>)>) -> Seq<Seq<Sym>> {
    Seq::new(entries.len(), |i: int| entry_syms(entries[i].0, entries[i].1))
}

pub open spec fn list_syms(parts: Seq<Seq<Sym>>) -> Seq<Sym> {
    seq![char_sym('[')] + json::joined(parts, char_sym(',')) + seq![char_sym(']')]
}

pub open spec fn object_syms(entries: Seq<(Seq<char>, Seq<Sym>)>) -> Seq<Sym> {
    seq![char_sym('{')] + json::joined(all_entry_syms(entries), char_sym(',')) + seq![
        char_sym('}'),
    ]
}

/// The symbols of a document.
pub open spec fn flat(j: Json) -> Seq<Sym>
    decreases j,
{
    match j {
        Json::True => seq![Sym::Text(seq!['t', 'r', 'u', 'e'])],
        Json::Number(n) => seq![Sym::Text(json::decimal(n))],
        Json::Text(s) => seq![Sym::Text(json::quoted(s))],
        Json::Length(i) => seq![Sym::Length(i)],
        Json::List(items) => list_syms(item_syms(items)),
        Json::Object(fields) => object_syms(json::inserted(Seq::empty(), field_syms(fields))),
    }
}

pub open spec fn item_syms(items: Seq<Json>) -> Seq<Seq<Sym>>
    decreases items,
{
    if items.len() == 0 {
        Seq::empty()
    } else {
        item_syms(items.drop_last()).push(flat(items.last()))
    }
}

pub open spec fn field_syms(fields: Seq<(Seq<char>, Json)>) -> Seq<(Seq<char>, Seq<Sym>)>
    decreases fields,
{
    if fields.len() == 0 {
        Seq::empty()
    } else {
        field_syms(fields.drop_last()).push((fields.last().0, flat(fields.last().1)))
    }
}

// ---------------------------------------------------------------------------
// Expansion
// ---------------------------------------------------------------------------

pub proof fn lemma_item_syms(items: Seq<Json>)
    ensures
        item_syms(items).len() == items.len(),
        forall|i: int| 0 <= i < items.len() ==> #[trigger] item_syms(items)[i] == flat(items[i]),
    decreases items.len(),
{
    if items.len() > 0 {
        lemma_item_syms(items.drop_last());
        assert forall|i: int| 0 <= i < items.len() implies #[trigger] item_syms(items)[i] == flat(
            items[i],
        ) by {
            if i < items.len() - 1 {
                assert(item_syms(items.drop_last())[i] == flat(items.drop_last()[i]));
            }
        }
    }
}

pub proof fn lemma_field_syms(fields: Seq<(Seq<char>, Json)>)
    ensures
        field_syms(fields).len() == fields.len(),
        forall|i: int|
            0 <= i < fields.len() ==> #[trigger] field_syms(fields)[i] == (
                fields[i].0,
                flat(fields[i].1),
            ),
    decreases fields.len(),
{
    if fields.len() > 0 {
        lemma_field_syms(fields.drop_last());
        assert forall|i: int| 0 <= i < fields.len() implies #[trigger] field_syms(fields)[i] == (
            fields[i].0,
            flat(fields[i].1),
        ) by {
            if i < fields.len() - 1 {
                assert(field_syms(fields.drop_last())[i] == (
                    fields.drop_last()[i].0,
                    flat(fields.drop_last()[i].1),
                ));
            }
        }
    }
}

pub proof fn lemma_expand_add(a: Seq<Sym>, b: Seq<Sym>, lengths: spec_fn(nat) -> Seq<char>)
    ensures
        expand(a + b, lengths) == expand(a, lengths) + expand(b, lengths),
    decreases b.len(),
{
    if b.len() == 0 {
        assert(a + b =~= a);
        assert(expand(a, lengths) + expand(b, lengths) =~= expand(a, lengths));
    } else {
        assert((a + b).drop_last() =~= a + b.drop_last());
        lemma_expand_add(a, b.drop_last(), lengths);
        assert(expand(a + b, lengths) =~= expand(a, lengths) + expand(b, lengths));
    }
}

pub proof fn lemma_expand_one(sym: Sym, lengths: spec_fn(nat) -> Seq<char>)
    ensures
        expand(seq![sym], lengths) == sym_text(sym, lengths),
{
    assert(seq![sym].drop_last() =~= Seq::empty());
    assert(expand(Seq::empty(), lengths) =~= Seq::empty());
    assert(expand(seq![sym], lengths) =~= sym_text(sym, lengths));
}

pub open spec fn expand_parts(
    parts: Seq<Seq<Sym>>,
    lengths: spec_fn(nat) -> Seq<char>,
) -> Seq<Seq<char>> {
    Seq::new(parts.len(), |i: int| expand(parts[i], lengths))
}

pub open spec fn expand_entries(
    entries: Seq<(Seq<char>, Seq<Sym>)>,
    lengths: spec_fn(nat) -> Seq<char>,
) -> Seq<(Seq<char>, Seq<char>)> {
    Seq::new(entries.len(), |i: int| (entries[i].0, expand(entries[i].1, lengths)))
}

proof fn lemma_expand_joined(parts: Seq<Seq<Sym>>, lengths: spec_fn(nat) -> Seq<char>)
    ensures
        expand(json::joined(parts, char_sym(',')), lengths) == json::joined(
            expand_parts(parts, lengths),
            ',',
        ),
    decreases parts.len(),
{
    let texts = expand_parts(parts, lengths);
    if parts.len() > 1 {
        let comma = char_sym(',');
        let head = json::joined(parts.drop_last(), comma);
        lemma_expand_joined(parts.drop_last(), lengths);
        assert(expand_parts(parts.drop_last(), lengths) =~= texts.drop_last());
        lemma_expand_add(head + seq![comma], parts.last(), lengths);
        lemma_expand_add(head, seq![comma], lengths);
        lemma_expand_one(comma, lengths);
    }
}

proof fn lemma_expand_entry_insert(
    entries: Seq<(Seq<char>, Seq<Sym>)>,
    key: Seq<char>,
    value: Seq<Sym>,
    lengths: spec_fn(nat) -> Seq<char>,
)
    ensures
        expand_entries(json::entry_insert(entries, key, value), lengths) == json::entry_insert(
            expand_entries(entries, lengths),
            key,
            expand(value, lengths),
        ),
    decreases entries.len(),
{
    let texts = expand_entries(entries, lengths);
    let out = expand_entries(json::entry_insert(entries, key, value), lengths);
    let want = json::entry_insert(texts, key, expand(value, lengths));
    if entries.len() == 0 {
        assert(out =~= want);
    } else if entries[0].0 == key {
        assert(out =~= want);
    } else if json::str_less(key, entries[0].0) {
        assert(out =~= want);
    } else {
        lemma_expand_entry_insert(entries.drop_first(), key, value, lengths);
        assert(expand_entries(entries.drop_first(), lengths) =~= texts.drop_first());
        assert(out =~= want);
    }
}

proof fn lemma_expand_inserted(
    entries: Seq<(Seq<char>, Seq<Sym>)>,
    fields: Seq<(Seq<char>, Seq<Sym>)>,
    lengths: spec_fn(nat) -> Seq<char>,
)
    ensures
        expand_entries(json::inserted(entries, fields), lengths) == json::inserted(
            expand_entries(entries, lengths),
            expand_entries(fields, lengths),
        ),
    decreases fields.len(),
{
    if fields.len() > 0 {
        let next = json::entry_insert(entries, fields[0].0, fields[0].1);
        lemma_expand_entry_insert(entries, fields[0].0, fields[0].1, lengths);
        lemma_expand_inserted(next, fields.drop_first(), lengths);
        assert(expand_entries(fields.drop_first(), lengths) =~= expand_entries(
            fields,
            lengths,
        ).drop_first());
    }
}

proof fn lemma_expand_object(
    entries: Seq<(Seq<char>, Seq<Sym>)>,
    lengths: spec_fn(nat) -> Seq<char>,
)
    ensures
        expand(object_syms(entries), lengths) == json::object_text(
            expand_entries(entries, lengths),
        ),
{
    let parts = all_entry_syms(entries);
    let inner = json::joined(parts, char_sym(','));
    let texts = expand_entries(entries, lengths);
    lemma_expand_joined(parts, lengths);
    assert forall|i: int| 0 <= i < entries.len() implies #[trigger] expand_parts(parts, lengths)[i]
        == json::entry_texts(texts)[i] by {
        let (key, value) = entries[i];
        let quoted = seq![Sym::Text(json::quoted(key))];
        lemma_expand_add(quoted + seq![char_sym(':')], value, lengths);
        lemma_expand_add(quoted, seq![char_sym(':')], lengths);
        lemma_expand_one(char_sym(':'), lengths);
        lemma_expand_one(Sym::Text(json::quoted(key)), lengths);
    }
    assert(expand_parts(parts, lengths) =~= json::entry_texts(texts));
    lemma_expand_add(seq![char_sym('{')] + inner, seq![char_sym('}')], lengths);
    lemma_expand_add(seq![char_sym('{')], inner, lengths);
    lemma_expand_one(char_sym('{'), lengths);
    lemma_expand_one(char_sym('}'), lengths);
}

/// The symbols of a document expand to its text.
pub proof fn lemma_flat(j: Json, lengths: spec_fn(nat) -> Seq<char>)
    ensures
        expand(flat(j), lengths) == json::text_with(j, lengths),
    decreases j,
{
    match j {
        Json::True => {
            lemma_expand_one(Sym::Text(seq!['t', 'r', 'u', 'e']), lengths);
        },
        Json::Number(n) => {
            lemma_expand_one(Sym::Text(json::decimal(n)), lengths);
        },
        Json::Text(s) => {
            lemma_expand_one(Sym::Text(json::quoted(s)), lengths);
        },
        Json::Length(i) => {
            lemma_expand_one(Sym::Length(i), lengths);
        },
        Json::List(items) => {
            let parts = item_syms(items);
            let inner = json::joined(parts, char_sym(','));
            lemma_item_syms(items);
            json::lemma_item_texts(items, lengths);
            assert forall|i: int| 0 <= i < items.len() implies #[trigger] expand_parts(
                parts,
                lengths,
            )[i] == json::item_texts(items, lengths)[i] by {
                lemma_flat(items[i], lengths);
            }
            assert(expand_parts(parts, lengths) =~= json::item_texts(items, lengths));
            lemma_expand_joined(parts, lengths);
            lemma_expand_add(seq![char_sym('[')] + inner, seq![char_sym(']')], lengths);
            lemma_expand_add(seq![char_sym('[')], inner, lengths);
            lemma_expand_one(char_sym('['), lengths);
            lemma_expand_one(char_sym(']'), lengths);
        },
        Json::Object(fields) => {
            let syms = field_syms(fields);
            lemma_field_syms(fields);
            json::lemma_field_texts(fields, lengths);
            assert forall|i: int| 0 <= i < fields.len() implies #[trigger] expand_entries(
                syms,
                lengths,
            )[i] == json::field_texts(fields, lengths)[i] by {
                assert(syms[i] == (fields[i].0, flat(fields[i].1)));
                lemma_flat(fields[i].1, lengths);
            }
            assert(expand_entries(syms, lengths) =~= json::field_texts(fields, lengths));
            lemma_expand_inserted(Seq::empty(), syms, lengths);
            assert(expand_entries(Seq::empty(), lengths) =~= Seq::empty());
            lemma_expand_object(json::inserted(Seq::empty(), syms), lengths);
        },
    }
}

// ---------------------------------------------------------------------------
// The open lengths of a document
// ---------------------------------------------------------------------------

pub proof fn lemma_marks_add(a: Seq<Sym>, b: Seq<Sym>)
    ensures
        marks(a + b) == marks(a) + marks(b),
    decreases b.len(),
{
    if b.len() == 0 {
        assert(a + b =~= a);
        assert(marks(a) + marks(b) =~= marks(a));
    } else {
        assert((a + b).drop_last() =~= a + b.drop_last());
        lemma_marks_add(a, b.drop_last());
        assert(marks(a + b) =~= marks(a) + marks(b));
    }
}

pub proof fn lemma_marks_one(sym: Sym)
    ensures
        marks(seq![sym]) == (match sym {
            Sym::Text(_) => Seq::<nat>::empty(),
            Sym::Length(i) => seq![i],
        }),
{
    assert(seq![sym].drop_last() =~= Seq::empty());
    assert(marks(Seq::empty()) =~= Seq::<nat>::empty());
    match sym {
        Sym::Text(_) => {},
        Sym::Length(i) => {
            assert(marks(seq![sym]) =~= seq![i]);
        },
    }
}

/// The open lengths of all parts, in order.
pub open spec fn all_marks(parts: Seq<Seq<Sym>>) -> Seq<nat>
    decreases parts.len(),
{
    if parts.len() == 0 {
        Seq::empty()
    } else {
        all_marks(parts.drop_last()) + marks(parts.last())
    }
}

pub proof fn lemma_marks_joined(parts: Seq<Seq<Sym>>)
    ensures
        marks(json::joined(parts, char_sym(','))) == all_marks(parts),
    decreases parts.len(),
{
    if parts.len() == 0 {
        assert(marks(Seq::empty()) =~= Seq::<nat>::empty());
    } else if parts.len() == 1 {
        assert(parts.drop_last() =~= Seq::empty());
        assert(all_marks(Seq::empty()) =~= Seq::<nat>::empty());
        assert(all_marks(parts) =~= marks(parts[0]));
    } else {
        let comma = char_sym(',');
        let head = json::joined(parts.drop_last(), comma);
        lemma_marks_joined(parts.drop_last());
        lemma_marks_add(head + seq![comma], parts.last());
        lemma_marks_add(head, seq![comma]);
        lemma_marks_one(comma);
        assert(marks(head) + Seq::<nat>::empty() =~= marks(head));
    }
}

pub proof fn lemma_list_marks(items: Seq<Json>)
    ensures
        marks(flat(Json::List(items))) == all_marks(item_syms(items)),
{
    let parts = item_syms(items);
    let inner = json::joined(parts, char_sym(','));
    lemma_marks_joined(parts);
    lemma_marks_add(seq![char_sym('[')] + inner, seq![char_sym(']')]);
    lemma_marks_add(seq![char_sym('[')], inner);
    lemma_marks_one(char_sym('['));
    lemma_marks_one(char_sym(']'));
    assert(Seq::<nat>::empty() + marks(inner) + Seq::<nat>::empty() =~= marks(inner));
}

/// A list of two documents has the lengths of the first before those of the
/// second.
pub proof fn lemma_pair_marks(a: Json, b: Json)
    ensures
        marks(flat(Json::List(seq![a, b]))) == marks(flat(a)) + marks(flat(b)),
{
    let items = seq![a, b];
    let parts = item_syms(items);
    lemma_list_marks(items);
    lemma_item_syms(items);
    assert(parts.drop_last().drop_last() =~= Seq::empty());
    assert(parts.last() == flat(b));
    assert(parts.drop_last().last() == flat(a));
    assert(all_marks(Seq::empty()) =~= Seq::<nat>::empty());
    assert(all_marks(parts.drop_last()) =~= marks(flat(a)));
}

pub open spec fn markless(entries: Seq<(Seq<char>, Seq<Sym>)>) -> bool {
    forall|i: int| 0 <= i < entries.len() ==> marks((#[trigger] entries[i]).1).len() == 0
}

/// The open lengths of the values, in the order of the entries.
pub open spec fn entry_marks(entries: Seq<(Seq<char>, Seq<Sym>)>) -> Seq<nat>
    decreases entries.len(),
{
    if entries.len() == 0 {
        Seq::empty()
    } else {
        marks(entries[0].1) + entry_marks(entries.drop_first())
    }
}

proof fn lemma_entry_marks_markless(entries: Seq<(Seq<char>, Seq<Sym>)>)
    requires
        markless(entries),
    ensures
        entry_marks(entries) == Seq::<nat>::empty(),
    decreases entries.len(),
{
    if entries.len() > 0 {
        assert forall|i: int| 0 <= i < entries.drop_first().len() implies marks(
            (#[trigger] entries.drop_first()[i]).1,
        ).len() == 0 by {
            assert(entries.drop_first()[i] == entries[i + 1]);
        }
        lemma_entry_marks_markless(entries.drop_first());
        assert(entry_marks(entries) =~= Seq::<nat>::empty());
    }
}

proof fn lemma_entry_marks_last(entries: Seq<(Seq<char>, Seq<Sym>)>)
    requires
        entries.len() > 0,
    ensures
        entry_marks(entries) == entry_marks(entries.drop_last()) + marks(entries.last().1),
    decreases entries.len(),
{
    if entries.len() == 1 {
        assert(entries.drop_first() =~= Seq::empty());
        assert(entries.drop_last() =~= Seq::empty());
        assert(entry_marks(Seq::empty()) =~= Seq::<nat>::empty());
        assert(entry_marks(entries) =~= entry_marks(entries.drop_last()) + marks(
            entries.last().1,
        ));
    } else {
        lemma_entry_marks_last(entries.drop_first());
        assert(entries.drop_first().drop_last() =~= entries.drop_last().drop_first());
        assert(entry_marks(entries) =~= entry_marks(entries.drop_last()) + marks(
            entries.last().1,
        ));
    }
}

proof fn lemma_entry_insert_marks(
    entries: Seq<(Seq<char>, Seq<Sym>)>,
    key: Seq<char>,
    value: Seq<Sym>,
)
    requires
        markless(entries),
    ensures
        entry_marks(json::entry_insert(entries, key, value)) == marks(value),
        marks(value).len() == 0 ==> markless(json::entry_insert(entries, key, value)),
    decreases entries.len(),
{
    let out = json::entry_insert(entries, key, value);
    if entries.len() == 0 {
        assert(out.drop_first() =~= Seq::empty());
        assert(entry_marks(Seq::empty()) =~= Seq::<nat>::empty());
        assert(entry_marks(out) =~= marks(value));
    } else {
        let tail = entries.drop_first();
        assert(markless(tail)) by {
            assert forall|i: int| 0 <= i < tail.len() implies marks((#[trigger] tail[i]).1).len()
                == 0 by {
                assert(tail[i] == entries[i + 1]);
            }
        }
        assert(marks(entries[0].1).len() == 0);
        if entries[0].0 == key {
            assert(out.drop_first() =~= tail);
            lemma_entry_marks_markless(tail);
            assert(entry_marks(out) =~= marks(value));
            if marks(value).len() == 0 {
                assert forall|i: int| 0 <= i < out.len() implies marks((#[trigger] out[i]).1).len()
                    == 0 by {
                    if i > 0 {
                        assert(out[i] == entries[i]);
                    }
                }
            }
        } else if json::str_less(key, entries[0].0) {
            assert(out.drop_first() =~= entries);
            lemma_entry_marks_markless(entries);
            assert(entry_marks(out) =~= marks(value));
            if marks(value).len() == 0 {
                assert forall|i: int| 0 <= i < out.len() implies marks((#[trigger] out[i]).1).len()
                    == 0 by {
                    if i > 0 {
                        assert(out[i] == entries[i - 1]);
                    }
                }
            }
        } else {
            let rest = json::entry_insert(tail, key, value);
            lemma_entry_insert_marks(tail, key, value);
            assert(out.drop_first() =~= rest);
            assert(entry_marks(out) =~= marks(value));
            if marks(value).len() == 0 {
                assert forall|i: int| 0 <= i < out.len() implies marks((#[trigger] out[i]).1).len()
                    == 0 by {
                    if i > 0 {
                        assert(out[i] == rest[i - 1]);
                    }
                }
            }
        }
    }
}

proof fn lemma_inserted_marks(
    entries: Seq<(Seq<char>, Seq<Sym>)>,
    fields: Seq<(Seq<char>, Seq<Sym>)>,
)
    requires
        markless(entries),
        fields.len() > 0,
        markless(fields.drop_last()),
    ensures
        entry_marks(json::inserted(entries, fields)) == marks(fields.last().1),
    decreases fields.len(),
{
    let next = json::entry_insert(entries, fields[0].0, fields[0].1);
    let tail = fields.drop_first();
    lemma_entry_insert_marks(entries, fields[0].0, fields[0].1);
    if fields.len() == 1 {
        assert(tail =~= Seq::empty());
        assert(json::inserted(next, tail) == next);
    } else {
        assert(fields.drop_last()[0] == fields[0]);
        assert forall|i: int| 0 <= i < tail.drop_last().len() implies marks(
            (#[trigger] tail.drop_last()[i]).1,
        ).len() == 0 by {
            assert(tail.drop_last()[i] == fields.drop_last()[i + 1]);
        }
        lemma_inserted_marks(next, tail);
    }
}

proof fn lemma_object_syms_marks(entries: Seq<(Seq<char>, Seq<Sym>)>)
    ensures
        marks(object_syms(entries)) == entry_marks(entries),
{
    let parts = all_entry_syms(entries);
    let inner = json::joined(parts, char_sym(','));
    lemma_marks_joined(parts);
    lemma_all_entry_marks(entries);
    lemma_marks_add(seq![char_sym('{')] + inner, seq![char_sym('}')]);
    lemma_marks_add(seq![char_sym('{')], inner);
    lemma_marks_one(char_sym('{'));
    lemma_marks_one(char_sym('}'));
    assert(Seq::<nat>::empty() + marks(inner) + Seq::<nat>::empty() =~= marks(inner));
}

proof fn lemma_all_entry_marks(entries: Seq<(Seq<char>, Seq<Sym>)>)
    ensures
        all_marks(all_entry_syms(entries)) == entry_marks(entries),
    decreases entries.len(),
{
    let parts = all_entry_syms(entries);
    if entries.len() == 0 {
        assert(all_marks(parts) =~= Seq::<nat>::empty());
    } else {
        let (key, value) = entries.last();
        let quoted = seq![Sym::Text(json::quoted(key))];
        assert(parts.drop_last() =~= all_entry_syms(entries.drop_last()));
        lemma_all_entry_marks(entries.drop_last());
        lemma_entry_marks_last(entries);
        lemma_marks_add(quoted + seq![char_sym(':')], value);
        lemma_marks_add(quoted, seq![char_sym(':')]);
        lemma_marks_one(Sym::Text(json::quoted(key)));
        lemma_marks_one(char_sym(':'));
        assert(Seq::<nat>::empty() + Seq::<nat>::empty() + marks(value) =~= marks(value));
    }
}

/// An object whose fields hold no open length, but for the last that is
/// inserted, has the lengths of that one.
pub proof fn lemma_object_marks(fields: Seq<(Seq<char>, Json)>)
    requires
        fields.len() > 0,
        forall|i: int|
            0 <= i < fields.len() - 1 ==> marks(flat((#[trigger] fields[i]).1)).len() == 0,
    ensures
        marks(flat(Json::Object(fields))) == marks(flat(fields.last().1)),
{
    let syms = field_syms(fields);
    lemma_field_syms(fields);
    assert forall|i: int| 0 <= i < syms.drop_last().len() implies marks(
        (#[trigger] syms.drop_last()[i]).1,
    ).len() == 0 by {
        assert(syms[i] == (fields[i].0, flat(fields[i].1)));
    }
    lemma_inserted_marks(Seq::empty(), syms);
    lemma_object_syms_marks(json::inserted(Seq::empty(), syms));
}

// ---------------------------------------------------------------------------
// Every marker is found
// ---------------------------------------------------------------------------

/// The numbers `i`, `i + 1` up to `n` appear in order, possibly among others.
pub open spec fn covers(m: Seq<nat>, i: nat, n: nat) -> bool
    decreases n - i,
{
    i >= n || exists|k: int|
        0 <= k < m.len() && #[trigger] m[k] == i && covers(m.skip(k + 1), i + 1, n)
}

pub proof fn lemma_covers_prepend(a: Seq<nat>, b: Seq<nat>, i: nat, n: nat)
    requires
        covers(b, i, n),
    ensures
        covers(a + b, i, n),
{
    if i < n {
        let k = choose|k: int|
            0 <= k < b.len() && #[trigger] b[k] == i && covers(b.skip(k + 1), i + 1, n);
        assert((a + b)[a.len() + k] == i);
        assert((a + b).skip(a.len() + k + 1) =~= b.skip(k + 1));
    }
}

/// One run of numbers behind the other.
pub proof fn lemma_covers_add(a: Seq<nat>, b: Seq<nat>, i: nat, j: nat, n: nat)
    requires
        i <= j,
        covers(a, i, j),
        covers(b, j, n),
    ensures
        covers(a + b, i, n),
    decreases j - i,
{
    if i >= j {
        lemma_covers_prepend(a, b, i, n);
    } else if i < n {
        let k = choose|k: int|
            0 <= k < a.len() && #[trigger] a[k] == i && covers(a.skip(k + 1), i + 1, j);
        lemma_covers_add(a.skip(k + 1), b, i + 1, j, n);
        assert((a + b)[k] == i);
        assert((a + b).skip(k + 1) =~= a.skip(k + 1) + b);
    }
}

/// The place of the `k`-th open length among the symbols.
pub proof fn lemma_mark_place(syms: Seq<Sym>, k: int) -> (p: int)
    requires
        0 <= k < marks(syms).len(),
    ensures
        0 <= p < syms.len(),
        syms[p] == Sym::Length(marks(syms)[k]),
        marks(syms.take(p)) == marks(syms).take(k),
        marks(syms.skip(p + 1)) == marks(syms).skip(k + 1),
    decreases syms.len(),
{
    let front = syms.drop_last();
    let all = marks(syms);
    match syms.last() {
        Sym::Text(s) => {
            let p = lemma_mark_place(front, k);
            assert(syms.take(p) =~= front.take(p));
            assert(syms.skip(p + 1) =~= front.skip(p + 1) + seq![Sym::Text(s)]);
            lemma_marks_add(front.skip(p + 1), seq![Sym::Text(s)]);
            lemma_marks_one(Sym::Text(s));
            assert(marks(front.skip(p + 1)) + Seq::<nat>::empty() =~= marks(front.skip(p + 1)));
            p
        },
        Sym::Length(i) => {
            if k == all.len() - 1 {
                let p = syms.len() - 1;
                assert(syms.take(p) =~= front);
                assert(syms.skip(p + 1) =~= Seq::empty());
                assert(all.take(k) =~= marks(front));
                assert(marks(syms.skip(p + 1)) =~= all.skip(k + 1));
                p
            } else {
                let p = lemma_mark_place(front, k);
                assert(syms.take(p) =~= front.take(p));
                assert(syms.skip(p + 1) =~= front.skip(p + 1) + seq![Sym::Length(i)]);
                lemma_marks_add(front.skip(p + 1), seq![Sym::Length(i)]);
                lemma_marks_one(Sym::Length(i));
                assert(all.take(k) =~= marks(front).take(k));
                assert(all.skip(k + 1) =~= marks(front).skip(k + 1) + seq![i]);
                p
            }
        },
    }
}

/// The text of symbols is that of the symbols before a place, of the symbol
/// there, and of those behind it.
pub proof fn lemma_expand_at(syms: Seq<Sym>, p: int, lengths: spec_fn(nat) -> Seq<char>)
    requires
        0 <= p < syms.len(),
    ensures
        expand(syms, lengths) == expand(syms.take(p), lengths) + sym_text(syms[p], lengths)
            + expand(syms.skip(p + 1), lengths),
{
    assert(syms =~= syms.take(p) + seq![syms[p]] + syms.skip(p + 1));
    lemma_expand_add(syms.take(p) + seq![syms[p]], syms.skip(p + 1), lengths);
    lemma_expand_add(syms.take(p), seq![syms[p]], lengths);
    lemma_expand_one(syms[p], lengths);
}

/// The markers `i`, `i + 1` up to `n` stand in the text in order.
spec fn carries(s: Seq<char>, i: nat, n: nat) -> bool
    decreases n - i,
{
    i >= n || exists|k: int| #[trigger]
        text::occurs_at(s, json::marker_text(i), k) && carries(
            s.skip(k + json::marker_text(i).len()),
            i + 1,
            n,
        )
}

proof fn lemma_carries_prepend(a: Seq<char>, b: Seq<char>, i: nat, n: nat)
    requires
        carries(b, i, n),
    ensures
        carries(a + b, i, n),
{
    if i < n {
        let m = json::marker_text(i);
        let k = choose|k: int| #[trigger]
            text::occurs_at(b, m, k) && carries(b.skip(k + m.len()), i + 1, n);
        assert((a + b).subrange(a.len() + k, a.len() + k + m.len()) =~= b.subrange(
            k,
            k + m.len(),
        ));
        assert(text::occurs_at(a + b, m, a.len() + k));
        assert((a + b).skip(a.len() + k + m.len()) =~= b.skip(k + m.len()));
    }
}

proof fn lemma_covered_is_carried(syms: Seq<Sym>, i: nat, n: nat)
    requires
        covers(marks(syms), i, n),
    ensures
        carries(expand(syms, |k: nat| json::marker_text(k)), i, n),
    decreases n - i,
{
    if i < n {
        let lengths = |k: nat| json::marker_text(k);
        let all = marks(syms);
        let m = json::marker_text(i);
        let k = choose|k: int|
            0 <= k < all.len() && #[trigger] all[k] == i && covers(all.skip(k + 1), i + 1, n);
        let p = lemma_mark_place(syms, k);
        lemma_expand_at(syms, p, lengths);
        let head = expand(syms.take(p), lengths);
        let tail = expand(syms.skip(p + 1), lengths);
        let whole = expand(syms, lengths);
        lemma_covered_is_carried(syms.skip(p + 1), i + 1, n);
        assert(whole.subrange(head.len() as int, head.len() as int + m.len()) =~= m);
        assert(text::occurs_at(whole, m, head.len() as int));
        assert(whole.skip(head.len() as int + m.len()) =~= tail);
    }
}

proof fn lemma_carried_is_found(s: Seq<char>, i: nat, n: nat)
    requires
        carries(s, i, n),
    ensures
        splice::markers_found(s, i, n),
    decreases n - i,
{
    if i < n {
        let m = json::marker_text(i);
        let k = choose|k: int| #[trigger]
            text::occurs_at(s, m, k) && carries(s.skip(k + m.len()), i + 1, n);
        text::lemma_find(s, m);
        assert(text::occurs_at(s, m, k));
        let first = text::find(s, m)->0 as int;
        assert(first <= k) by {
            if k < first {
                assert(!text::occurs_at(s, m, k));
            }
        }
        let gap = s.subrange(first + m.len(), k + m.len());
        assert(s.skip(first + m.len()) =~= gap + s.skip(k + m.len()));
        lemma_carries_prepend(gap, s.skip(k + m.len()), i + 1, n);
        lemma_carried_is_found(s.skip(first + m.len()), i + 1, n);
    }
}

/// A document among whose open lengths are `0`, `1` up to `n` in this order
/// prints a text in which their markers are found.
pub proof fn lemma_markers_found(j: Json, n: nat)
    requires
        covers(marks(flat(j)), 0, n),
    ensures
        splice::markers_found(json::json_text(j), 0, n),
{
    let lengths = |k: nat| json::marker_text(k);
    lemma_flat(j, lengths);
    lemma_covered_is_carried(flat(j), 0, n);
    lemma_carried_is_found(json::json_text(j), 0, n);
}

} // verus!
