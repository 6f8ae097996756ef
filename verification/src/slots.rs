//! Texts that are split where something is to be filled in.
//!
//! The text of a type definition is made with a marker string in place of its
//! fields and split there. The proofs here show that the marker is found, and
//! that it is found in its own place.

use crate::docs;
use crate::fill;
use crate::json::{self, Json};
use crate::lengths;
use crate::symbols::{self, Sym};
use crate::syntax::{GenericParam, Generics};
use crate::text;
use crate::typedefs::{self, TypeKind};
use vstd::prelude::*;
use vstd::string::*;

verus! {

// ---------------------------------------------------------------------------
// Documents without open lengths
// ---------------------------------------------------------------------------

/// A document without open lengths has one text, whatever the lengths.
pub proof fn lemma_closed_text(j: Json, a: spec_fn(nat) -> Seq<char>, b: spec_fn(nat) -> Seq<char>)
    requires
        lengths::open_in(j).len() == 0,
    ensures
        json::text_with(j, a) == json::text_with(j, b),
{
    symbols::lemma_flat(j, a);
    symbols::lemma_flat(j, b);
    fill::lemma_expand_markless(symbols::flat(j), a, b);
}

proof fn lemma_closed_parts(parts: Seq<Seq<Sym>>)
    requires
        forall|i: int| 0 <= i < parts.len() ==> symbols::marks(#[trigger] parts[i]).len() == 0,
    ensures
        symbols::all_marks(parts).len() == 0,
    decreases parts.len(),
{
    if parts.len() > 0 {
        assert forall|i: int| 0 <= i < parts.drop_last().len() implies symbols::marks(
            #[trigger] parts.drop_last()[i],
        ).len() == 0 by {
            assert(parts.drop_last()[i] == parts[i]);
        }
        lemma_closed_parts(parts.drop_last());
        assert(parts.last() == parts[parts.len() - 1]);
    }
}

pub proof fn lemma_closed_list(items: Seq<Json>)
    requires
        forall|i: int| 0 <= i < items.len() ==> lengths::open_in(#[trigger] items[i]).len() == 0,
    ensures
        lengths::open_in(Json::List(items)).len() == 0,
{
    symbols::lemma_item_syms(items);
    symbols::lemma_list_marks(items);
    assert forall|i: int| 0 <= i < symbols::item_syms(items).len() implies symbols::marks(
        #[trigger] symbols::item_syms(items)[i],
    ).len() == 0 by {
        assert(lengths::open_in(items[i]).len() == 0);
    }
    lemma_closed_parts(symbols::item_syms(items));
}

pub proof fn lemma_closed_object(fields: Seq<(Seq<char>, Json)>)
    requires
        fields.len() > 0,
        forall|i: int|
            0 <= i < fields.len() ==> lengths::open_in((#[trigger] fields[i]).1).len() == 0,
    ensures
        lengths::open_in(Json::Object(fields)).len() == 0,
{
    symbols::lemma_object_marks(fields);
    assert(fields.last() == fields[fields.len() - 1]);
}

pub proof fn lemma_docs_closed(lines: Seq<Seq<char>>)
    ensures
        lengths::open_in(docs::docs_json(lines)).len() == 0,
{
    let items = Seq::new(lines.len(), |i: int| Json::Text(lines[i]));
    assert forall|i: int| 0 <= i < items.len() implies lengths::open_in(#[trigger] items[i]).len()
        == 0 by {
        lengths::lemma_leaf(items[i]);
    }
    lemma_closed_list(items);
}

proof fn lemma_generic_docs_closed(params: Seq<GenericParam>)
    ensures
        forall|i: int|
            0 <= i < typedefs::generic_docs(params).len() ==> lengths::open_in(
                #[trigger] typedefs::generic_docs(params)[i],
            ).len() == 0,
    decreases params.len(),
{
    if params.len() > 0 {
        let docs = typedefs::generic_docs(params.drop_last());
        lemma_generic_docs_closed(params.drop_last());
        match typedefs::generic_param_json(params.last()) {
            Some(doc) => {
                let fields = doc->Object_0;
                assert forall|i: int| 0 <= i < fields.len() implies lengths::open_in(
                    (#[trigger] fields[i]).1,
                ).len() == 0 by {
                    lengths::lemma_leaf(fields[i].1);
                }
                lemma_closed_object(fields);
                assert forall|i: int|
                    0 <= i < typedefs::generic_docs(params).len() implies lengths::open_in(
                    #[trigger] typedefs::generic_docs(params)[i],
                ).len() == 0 by {
                    if i < docs.len() {
                        assert(lengths::open_in(docs[i]).len() == 0);
                    }
                }
            },
            None => {},
        }
    }
}

pub proof fn lemma_header_fields_closed(
    name: Seq<char>,
    lines: Seq<String>,
    kind: TypeKind,
    generics: Generics,
)
    ensures
        forall|i: int|
            0 <= i < typedefs::header_fields(name, lines, kind, generics).len()
                ==> lengths::open_in(
                (#[trigger] typedefs::header_fields(name, lines, kind, generics)[i]).1,
            ).len() == 0,
{
    let fields = typedefs::header_fields(name, lines, kind, generics);
    let params = typedefs::generic_docs(generics.params@);
    lengths::lemma_leaf(Json::Text(name));
    lengths::lemma_leaf(Json::Text("bytemuck"@));
    lemma_docs_closed(text::views(lines));
    lemma_generic_docs_closed(generics.params@);
    lemma_closed_list(params);
    match kind {
        TypeKind::Borsh => {},
        TypeKind::BytemuckRepr(repr) => {
            let inner = typedefs::repr_fields(repr);
            assert forall|i: int| 0 <= i < inner.len() implies lengths::open_in(
                (#[trigger] inner[i]).1,
            ).len() == 0 by {
                lengths::lemma_leaf(inner[i].1);
            }
            lemma_closed_object(inner);
        },
    }
    assert forall|i: int| 0 <= i < fields.len() implies lengths::open_in(
        (#[trigger] fields[i]).1,
    ).len() == 0 by {
        let kind_fields = typedefs::kind_fields(kind);
        let front = fields.len() - kind_fields.len();
        if i >= front {
            assert(fields[i] == kind_fields[i - front]);
        } else {
            assert(fields[i].1 == Json::Text(name) || fields[i].1 == docs::docs_json(
                text::views(lines),
            ) || fields[i].1 == Json::List(params));
        }
    }
}

// ---------------------------------------------------------------------------
// The marker is found
// ---------------------------------------------------------------------------

/// A list with one open place.
pub open spec fn slot() -> Json {
    Json::List(seq![Json::Length(0)])
}

proof fn lemma_slot_open()
    ensures
        lengths::open_in(slot()) == seq![0nat],
{
    let items = seq![Json::Length(0)];
    let parts = symbols::item_syms(items);
    symbols::lemma_item_syms(items);
    symbols::lemma_list_marks(items);
    lengths::lemma_leaf(Json::Length(0));
    assert(parts.drop_last() =~= Seq::empty());
    assert(symbols::all_marks(Seq::empty()) =~= Seq::<nat>::empty());
    assert(parts.last() == symbols::flat(Json::Length(0)));
    assert(symbols::all_marks(parts) =~= seq![0nat]);
}

/// The list of a marker is the slot with the marker filled in.
pub proof fn lemma_marker_fills_slot(marker: Seq<char>)
    ensures
        json::json_text(typedefs::marker_list(marker)) == json::text_with(
            slot(),
            |i: nat| json::quoted(marker),
        ),
{
    let markers = |i: nat| json::marker_text(i);
    let filled = |i: nat| json::quoted(marker);
    json::lemma_item_texts(seq![Json::Text(marker)], markers);
    json::lemma_item_texts(seq![Json::Length(0)], filled);
    assert(json::item_texts(seq![Json::Text(marker)], markers) =~= json::item_texts(
        seq![Json::Length(0)],
        filled,
    ));
}

/// Objects that differ only in the last field that is inserted, and there print
/// alike, print alike.
proof fn lemma_last_field_text(
    fields: Seq<(Seq<char>, Json)>,
    key: Seq<char>,
    x: Json,
    y: Json,
    a: spec_fn(nat) -> Seq<char>,
    b: spec_fn(nat) -> Seq<char>,
)
    requires
        forall|i: int|
            0 <= i < fields.len() ==> lengths::open_in((#[trigger] fields[i]).1).len() == 0,
        json::text_with(x, a) == json::text_with(y, b),
    ensures
        json::text_with(Json::Object(fields.push((key, x))), a) == json::text_with(
            Json::Object(fields.push((key, y))),
            b,
        ),
{
    let left = fields.push((key, x));
    let right = fields.push((key, y));
    json::lemma_field_texts(left, a);
    json::lemma_field_texts(right, b);
    assert forall|i: int| 0 <= i < left.len() implies #[trigger] json::field_texts(left, a)[i]
        == json::field_texts(right, b)[i] by {
        assert(json::field_texts(right, b)[i] == (right[i].0, json::text_with(right[i].1, b)));
        if i < fields.len() {
            assert(left[i] == fields[i] && right[i] == fields[i]);
            lemma_closed_text(fields[i].1, a, b);
        }
    }
    assert(json::field_texts(left, a) =~= json::field_texts(right, b));
}

/// A type definition with a slot in place of its fields or variants.
pub open spec fn type_def_slot(
    name: Seq<char>,
    lines: Seq<String>,
    kind: TypeKind,
    generics: Generics,
    kind_name: Seq<char>,
) -> Json {
    typedefs::type_def_json(name, lines, kind, generics, kind_name, slot())
}

/// Two payloads that print alike make type definitions that print alike.
pub proof fn lemma_type_def_text(
    name: Seq<char>,
    lines: Seq<String>,
    kind: TypeKind,
    generics: Generics,
    kind_name: Seq<char>,
    x: Json,
    y: Json,
    a: spec_fn(nat) -> Seq<char>,
    b: spec_fn(nat) -> Seq<char>,
)
    requires
        json::text_with(x, a) == json::text_with(y, b),
    ensures
        json::text_with(
            typedefs::type_def_json(name, lines, kind, generics, kind_name, x),
            a,
        ) == json::text_with(
            typedefs::type_def_json(name, lines, kind, generics, kind_name, y),
            b,
        ),
{
    let head = seq![("kind"@, Json::Text(kind_name))];
    let key = typedefs::payload_key(kind_name);
    lengths::lemma_leaf(Json::Text(kind_name));
    lemma_last_field_text(head, key, x, y, a, b);
    assert(head.push((key, x)) =~= typedefs::type_fields(kind_name, x));
    assert(head.push((key, y)) =~= typedefs::type_fields(kind_name, y));
    lemma_header_fields_closed(name, lines, kind, generics);
    lemma_last_field_text(
        typedefs::header_fields(name, lines, kind, generics),
        "type"@,
        Json::Object(typedefs::type_fields(kind_name, x)),
        Json::Object(typedefs::type_fields(kind_name, y)),
        a,
        b,
    );
}

pub proof fn lemma_type_def_open(
    name: Seq<char>,
    lines: Seq<String>,
    kind: TypeKind,
    generics: Generics,
    kind_name: Seq<char>,
)
    ensures
        lengths::open_in(type_def_slot(name, lines, kind, generics, kind_name)) == seq![0nat],
{
    let inner = typedefs::type_fields(kind_name, slot());
    lemma_slot_open();
    lengths::lemma_leaf(Json::Text(kind_name));
    symbols::lemma_object_marks(inner);
    lemma_header_fields_closed(name, lines, kind, generics);
    symbols::lemma_object_marks(
        typedefs::header_fields(name, lines, kind, generics).push(("type"@, Json::Object(inner))),
    );
}

/// What is filled into the open place of a document stands in its text.
proof fn lemma_filled_text_occurs(j: Json, filler: Seq<char>)
    requires
        lengths::open_in(j) == seq![0nat],
    ensures
        text::find(json::text_with(j, |i: nat| filler), filler) is Some,
{
    let filled = |i: nat| filler;
    let syms = symbols::flat(j);
    symbols::lemma_flat(j, filled);
    let p = symbols::lemma_mark_place(syms, 0);
    symbols::lemma_expand_at(syms, p, filled);
    let head = symbols::expand(syms.take(p), filled);
    let whole = symbols::expand(syms, filled);
    assert(whole.subrange(head.len() as int, head.len() as int + filler.len()) =~= filler);
    text::lemma_find(whole, filler);
    assert(text::occurs_at(whole, filler, head.len() as int));
}

pub proof fn lemma_header_marker_found(
    name: Seq<char>,
    lines: Seq<String>,
    kind: TypeKind,
    generics: Generics,
    kind_name: Seq<char>,
)
    ensures
        typedefs::header_parts(name, lines, kind, generics, kind_name) is Some,
{
    let marker = typedefs::FIELD_MARKER@;
    let markers = |i: nat| json::marker_text(i);
    let filled = |i: nat| json::quoted(marker);
    lemma_marker_fills_slot(marker);
    lemma_type_def_text(
        name,
        lines,
        kind,
        generics,
        kind_name,
        typedefs::marker_list(marker),
        slot(),
        markers,
        filled,
    );
    lemma_type_def_open(name, lines, kind, generics, kind_name);
    lemma_filled_text_occurs(
        type_def_slot(name, lines, kind, generics, kind_name),
        json::quoted(marker),
    );
}

pub proof fn lemma_variant_marker_found(name: Seq<char>)
    ensures
        typedefs::variant_parts(name) is Some,
{
    let marker = typedefs::VARIANT_FIELD_MARKER@;
    let head = seq![("name"@, Json::Text(name))];
    let fields = head.push(("fields"@, slot()));
    lengths::lemma_leaf(Json::Text(name));
    lemma_marker_fills_slot(marker);
    lemma_last_field_text(
        head,
        "fields"@,
        typedefs::marker_list(marker),
        slot(),
        |i: nat| json::marker_text(i),
        |i: nat| json::quoted(marker),
    );
    assert(head.push(("fields"@, typedefs::marker_list(marker))) =~= seq![
        ("name"@, Json::Text(name)),
        ("fields"@, typedefs::marker_list(marker)),
    ]);
    lemma_slot_open();
    symbols::lemma_object_marks(fields);
    lemma_filled_text_occurs(Json::Object(fields), json::quoted(marker));
}

} // verus!
