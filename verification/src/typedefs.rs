//! Type definitions of structs and enums.

use crate::code::{self, Data};
use crate::definitions;
use crate::docs;
use crate::json::{self, Json};
use crate::lengths;
use crate::lower::{self, TypeLowerer};
use crate::pushes;
use crate::printing;
use crate::setting::Build;
use crate::slots;
use crate::splice;
use crate::surround;
use crate::symbols;
use crate::syntax::{Expr, Field, Fields, GenericParam, Generics, Variant};
use crate::text;
use crate::tokens::{self, Delim, Token};
use proc_macro2::TokenStream;
use serde_json::Value;
use vstd::prelude::*;
use vstd::string::*;

verus! {

/// How the values of a type are laid out. Serialization and representation are
/// coupled: bytemuck goes with `repr(C)`, borsh carries no representation.
#[derive(Clone, Copy)]
pub enum TypeKind {
    /// The default layout; nothing is emitted for it.
    Borsh,
    /// Plain old data with `repr(C)` and the modifiers of the item.
    BytemuckRepr(BytemuckRepr),
}

#[derive(Clone, Copy)]
pub struct BytemuckRepr {
    pub packed: bool,
    pub align: Option<usize>,
}

impl Default for BytemuckRepr {
    fn default() -> (repr: Self)
        ensures
            repr == (BytemuckRepr { packed: false, align: None }),
    {
        BytemuckRepr { packed: false, align: None }
    }
}

/// The text in a header whose place the fields or variants take.
pub const FIELD_MARKER: &'static str = "__anchor_private_fields__";

/// The text in the header of a variant whose place its fields take.
pub const VARIANT_FIELD_MARKER: &'static str = "__anchor_private_variant_fields__";

// ---------------------------------------------------------------------------
// What a type definition is
// ---------------------------------------------------------------------------

/// The IDL form of a generic parameter; lifetimes have none.
pub open spec fn generic_param_json(param: GenericParam) -> Option<Json> {
    match param {
        GenericParam::Type(name) => Some(
            Json::Object(seq![("kind"@, Json::Text("type"@)), ("name"@, Json::Text(name@))]),
        ),
        GenericParam::Const(name, ty) => Some(
            Json::Object(
                seq![
                    ("kind"@, Json::Text("const"@)),
                    ("name"@, Json::Text(name@)),
                    ("type"@, Json::Text(text::unspaced(tokens::stream_text(ty)))),
                ],
            ),
        ),
        GenericParam::Lifetime => None,
    }
}

pub open spec fn generic_docs(params: Seq<GenericParam>) -> Seq<Json>
    decreases params.len(),
{
    if params.len() == 0 {
        Seq::empty()
    } else {
        match generic_param_json(params.last()) {
            Some(doc) => generic_docs(params.drop_last()).push(doc),
            None => generic_docs(params.drop_last()),
        }
    }
}

/// A field that is there only under a condition.
pub open spec fn field_if(set: bool, key: Seq<char>, doc: Json) -> Seq<(Seq<char>, Json)> {
    if set {
        seq![(key, doc)]
    } else {
        Seq::empty()
    }
}

/// `{"kind":"c"}`, with the modifiers that are set.
pub open spec fn repr_fields(repr: BytemuckRepr) -> Seq<(Seq<char>, Json)> {
    seq![("kind"@, Json::Text("c"@))] + field_if(repr.packed, "packed"@, Json::True) + field_if(
        repr.align is Some,
        "align"@,
        Json::Number(repr.align->0 as nat),
    )
}

pub open spec fn kind_fields(kind: TypeKind) -> Seq<(Seq<char>, Json)> {
    match kind {
        TypeKind::Borsh => Seq::empty(),
        TypeKind::BytemuckRepr(repr) => seq![
            ("serialization"@, Json::Text("bytemuck"@)),
            ("repr"@, Json::Object(repr_fields(repr))),
        ],
    }
}

/// The fields of a type definition apart from the type itself. There is no
/// discriminator among them: it belongs to the account entry.
pub open spec fn header_fields(
    name: Seq<char>,
    lines: Seq<String>,
    kind: TypeKind,
    generics: Generics,
) -> Seq<(Seq<char>, Json)> {
    let params = generic_docs(generics.params@);
    seq![("name"@, Json::Text(name))] + field_if(
        lines.len() > 0,
        "docs"@,
        docs::docs_json(text::views(lines)),
    ) + field_if(params.len() > 0, "generics"@, Json::List(params)) + kind_fields(kind)
}

/// A struct carries `fields`, an enum `variants`.
pub open spec fn payload_key(kind_name: Seq<char>) -> Seq<char> {
    if kind_name == "enum"@ {
        "variants"@
    } else {
        "fields"@
    }
}

pub open spec fn type_fields(kind_name: Seq<char>, payload: Json) -> Seq<(Seq<char>, Json)> {
    seq![("kind"@, Json::Text(kind_name)), (payload_key(kind_name), payload)]
}

/// A type definition with the given fields or variants.
pub open spec fn type_def_json(
    name: Seq<char>,
    lines: Seq<String>,
    kind: TypeKind,
    generics: Generics,
    kind_name: Seq<char>,
    payload: Json,
) -> Json {
    Json::Object(
        header_fields(name, lines, kind, generics).push(
            ("type"@, Json::Object(type_fields(kind_name, payload))),
        ),
    )
}

/// A list of one string.
pub open spec fn marker_list(marker: Seq<char>) -> Json {
    Json::List(seq![Json::Text(marker)])
}

/// The text of a type definition around its fields or variants.
pub open spec fn header_parts(
    name: Seq<char>,
    lines: Seq<String>,
    kind: TypeKind,
    generics: Generics,
    kind_name: Seq<char>,
) -> Option<(Seq<char>, Seq<char>)> {
    text::spec_split_once(
        json::json_text(
            type_def_json(name, lines, kind, generics, kind_name, marker_list(FIELD_MARKER@)),
        ),
        json::quoted(FIELD_MARKER@),
    )
}

/// The IDL form of a named field, `next` lengths having been left open before
/// it.
pub open spec fn field_json(f: Field, generics: Option<&Generics>, next: nat) -> Json {
    let lines = docs::doc_lines(f.attrs@);
    Json::Object(
        (seq![("name"@, Json::Text(f.ident->0@))] + field_if(
            lines.len() > 0,
            "docs"@,
            docs::docs_json(lines),
        )).push(("type"@, lower::lowered(f.ty, generics, next))),
    )
}

/// The IDL form of a variant with the given fields.
pub open spec fn variant_json(name: Seq<char>, payload: Json) -> Json {
    Json::Object(seq![("name"@, Json::Text(name)), ("fields"@, payload)])
}

/// The text of a variant around its fields.
pub open spec fn variant_parts(name: Seq<char>) -> Option<(Seq<char>, Seq<char>)> {
    text::spec_split_once(
        json::json_text(variant_json(name, marker_list(VARIANT_FIELD_MARKER@))),
        json::quoted(VARIANT_FIELD_MARKER@),
    )
}

// ---------------------------------------------------------------------------
// The code that is generated for it
// ---------------------------------------------------------------------------

pub open spec fn all_tokens(streams: Seq<TokenStream>) -> Seq<Token>
    decreases streams.len(),
{
    if streams.len() == 0 {
        Seq::empty()
    } else {
        all_tokens(streams.drop_last()) + tokens::stream_tokens(streams.last())
    }
}

/// `<cfg attributes> __entries.push(<entry>);`
pub open spec fn entry_push(cfg_attrs: Seq<TokenStream>, entry: Seq<Token>) -> Seq<Token> {
    all_tokens(cfg_attrs) + tokens::words("__entries"@) + tokens::words(". push"@) + tokens::group(
        Delim::Paren,
        entry,
    )
        + tokens::words(";"@)
}

/// One entry of a joined list.
pub struct CodeEntry {
    /// The `cfg` attributes under which the entry is there.
    pub cfg_attrs: Seq<TokenStream>,
    pub code: EntryCode,
}

/// An expression that evaluates to the text of an entry.
pub enum EntryCode {
    /// A document, its open lengths being the values of the expressions.
    Document(Json, Seq<Expr>),
    /// The entries between two texts.
    Joined(Seq<char>, Seq<CodeEntry>, Seq<char>),
}

pub open spec fn field_list(fields: Fields) -> Seq<Field> {
    match fields {
        Fields::Named(list) => list@,
        Fields::Unnamed(list) => list@,
        Fields::Unit => Seq::empty(),
    }
}

/// The IDL form of a field; without a name it is that of its type.
pub open spec fn field_document(f: Field, named: bool, generics: Generics) -> Json {
    if named {
        field_json(f, Some(&generics), 0)
    } else {
        lower::lowered(f.ty, Some(&generics), 0)
    }
}

pub open spec fn field_code(f: Field, named: bool, generics: Generics) -> EntryCode {
    EntryCode::Document(
        field_document(f, named, generics),
        lower::dynamic_lengths(f.ty, Some(&generics)),
    )
}

pub open spec fn list_entries(fields: Seq<Field>, named: bool, generics: Generics) -> Seq<
    CodeEntry,
> {
    Seq::new(
        fields.len(),
        |i: int|
            CodeEntry {
                cfg_attrs: fields[i].cfg_attrs@,
                code: field_code(fields[i], named, generics),
            },
    )
}

/// The entries of the fields, in order.
pub open spec fn field_entries(fields: Fields, generics: Generics) -> Seq<CodeEntry> {
    list_entries(field_list(fields), fields is Named, generics)
}

/// The IDL form of a variant without fields.
pub open spec fn unit_variant_json(name: Seq<char>) -> Json {
    Json::Object(seq![("name"@, Json::Text(name))])
}

pub open spec fn variant_code(v: Variant, generics: Generics) -> EntryCode {
    match v.fields {
        Fields::Unit => EntryCode::Document(unit_variant_json(v.ident@), Seq::empty()),
        _ => {
            let (prefix, suffix) = variant_parts(v.ident@)->0;
            EntryCode::Joined(prefix, field_entries(v.fields, generics), suffix)
        },
    }
}

/// The entries of the variants, in order.
pub open spec fn variant_entries(variants: Seq<Variant>, generics: Generics) -> Seq<CodeEntry> {
    Seq::new(
        variants.len(),
        |i: int|
            CodeEntry {
                cfg_attrs: variants[i].cfg_attrs@,
                code: variant_code(variants[i], generics),
            },
    )
}

/// The expression of an entry.
pub open spec fn entry_tokens(code: EntryCode) -> Seq<Token>
    decreases code,
{
    match code {
        EntryCode::Document(doc, lengths) => splice::text_expr(json::json_text(doc), lengths),
        EntryCode::Joined(prefix, entries, suffix) => joined_entry_expr(
            prefix,
            pushes_tokens(entries),
            suffix,
        ),
    }
}

/// The statements that push the entries.
pub open spec fn pushes_tokens(entries: Seq<CodeEntry>) -> Seq<Token>
    decreases entries,
{
    if entries.len() == 0 {
        Seq::empty()
    } else {
        pushes_tokens(entries.drop_last()) + entry_push(
            entries.last().cfg_attrs,
            entry_tokens(entries.last().code),
        )
    }
}

/// The statements that join the entries between two texts.
///
/// ```text
/// let mut __entries: anchor_lang::__alloc::vec::Vec<&'static str> =
///     anchor_lang::__alloc::vec::Vec::new();
/// <pushes>
/// let mut __s = anchor_lang::__alloc::string::String::from(<prefix>);
/// <loop>
/// __s.push_str(<suffix>);
/// ```
pub open spec fn join_stmts(prefix: Seq<char>, pushes: Seq<Token>, suffix: Seq<char>) -> Seq<
    Token,
> {
    tokens::words("let mut"@) + tokens::words("__entries"@) + tokens::words(":"@) + tokens::words(
        "anchor_lang :: __alloc :: vec :: Vec < & 'static str >"@,
    ) + tokens::words("="@) + tokens::words("anchor_lang :: __alloc :: vec :: Vec :: new"@)
        + tokens::group(Delim::Paren, Seq::empty()) + tokens::words(";"@) + pushes
        + pushes::let_string("__s"@, prefix) + pushes::join_loop(false, "__entry"@, "__entries"@)
        + pushes::push_text("__s"@, suffix)
}

/// `{ <join statements> <leak> }`
pub open spec fn joined_entry_expr(
    prefix: Seq<char>,
    pushes: Seq<Token>,
    suffix: Seq<char>,
) -> Seq<Token> {
    tokens::group(Delim::Brace, join_stmts(prefix, pushes, suffix) + pushes::leak_expr())
}

/// `{ <join statements> ::core::option::Option::Some(<leak>) }`
pub open spec fn joined_type_def_expr(
    prefix: Seq<char>,
    pushes: Seq<Token>,
    suffix: Seq<char>,
) -> Seq<Token> {
    tokens::group(
        Delim::Brace,
        join_stmts(prefix, pushes, suffix) + tokens::words(":: core :: option :: Option :: Some"@)
            + tokens::group(Delim::Paren, pushes::leak_expr()),
    )
}

/// Named fields have names.
pub open spec fn fields_are_named(fields: Fields) -> bool {
    fields matches Fields::Named(list) ==> forall|i: int|
        0 <= i < list@.len() ==> (#[trigger] list@[i]).ident is Some
}

// ---------------------------------------------------------------------------
// Headers
// ---------------------------------------------------------------------------

fn generic_param_value(param: &GenericParam) -> (value: Option<Value>)
    ensures
        match generic_param_json(*param) {
            Some(doc) => value is Some && json::value_text(value->0) == json::json_text(doc),
            None => value is None,
        },
{
    match param {
        GenericParam::Type(name) => {
            let ghost doc = seq![("kind"@, Json::Text("type"@)), ("name"@, Json::Text(name@))];
            Some(
                json::object_json(
                    vec![
                        ("kind", json::text_json("type")),
                        ("name", json::text_json(name.as_str())),
                    ],
                    Ghost(doc),
                ),
            )
        },
        GenericParam::Const(name, ty) => {
            let printed = tokens::stream_to_string(ty);
            let ty_text = text::without_spaces(printed.as_str());
            let ghost doc = seq![
                ("kind"@, Json::Text("const"@)),
                ("name"@, Json::Text(name@)),
                ("type"@, Json::Text(ty_text@)),
            ];
            Some(
                json::object_json(
                    vec![
                        ("kind", json::text_json("const")),
                        ("name", json::text_json(name.as_str())),
                        ("type", json::text_json(ty_text.as_str())),
                    ],
                    Ghost(doc),
                ),
            )
        },
        GenericParam::Lifetime => None,
    }
}

/// The IDL forms of the generic parameters of an item.
pub fn generic_definitions(generics: &Generics) -> (values: Vec<Value>)
    ensures
        json::items_print(values@, generic_docs(generics.params@)),
{
    let params = &generics.params;
    let mut values: Vec<Value> = Vec::new();
    let mut i: usize = 0;
    assert(params@.take(0) =~= Seq::empty());
    while i < params.len()
        invariant
            i <= params@.len(),
            json::items_print(values@, generic_docs(params@.take(i as int))),
        decreases params@.len() - i,
    {
        let ghost before = values@;
        let ghost docs = generic_docs(params@.take(i as int));
        proof {
            assert(params@.take(i + 1).drop_last() =~= params@.take(i as int));
            assert(params@.take(i + 1).last() == params@[i as int]);
        }
        if let Some(value) = generic_param_value(&params[i]) {
            values.push(value);
            proof {
                let all = generic_docs(params@.take(i + 1));
                assert forall|k: int| 0 <= k < all.len() implies #[trigger] json::value_text(
                    values@[k],
                ) == json::json_text(all[k]) by {
                    if k < docs.len() {
                        assert(values@[k] == before[k]);
                        assert(json::value_text(before[k]) == json::json_text(docs[k]));
                    }
                }
            }
        }
        i = i + 1;
    }
    assert(params@.take(i as int) =~= params@);
    values
}

proof fn lemma_fields_print_push(
    fields: Seq<(&str, Value)>,
    docs: Seq<(Seq<char>, Json)>,
    field: (&str, Value),
    doc: (Seq<char>, Json),
)
    requires
        json::fields_print(fields, docs),
        field.0@ == doc.0,
        json::value_text(field.1) == json::json_text(doc.1),
    ensures
        json::fields_print(fields.push(field), docs.push(doc)),
        json::fields_print(fields.push(field), docs + seq![doc]),
{
    let all = fields.push(field);
    assert(docs.push(doc) =~= docs + seq![doc]);
    assert forall|i: int| #![trigger all[i]] 0 <= i < docs.push(doc).len() implies all[i].0@
        == docs.push(doc)[i].0 && json::value_text(all[i].1) == json::json_text(
        docs.push(doc)[i].1,
    ) by {
        if i < docs.len() {
            assert(all[i] == fields[i]);
        }
    }
}

fn repr_value(repr: BytemuckRepr) -> (value: Value)
    ensures
        json::value_text(value) == json::json_text(Json::Object(repr_fields(repr))),
{
    let mut fields: Vec<(&str, Value)> = vec![("kind", json::text_json("c"))];
    let ghost mut docs = seq![("kind"@, Json::Text("c"@))];
    assert(json::fields_print(fields@, docs));
    if repr.packed {
        let field = ("packed", json::true_json());
        proof {
            lemma_fields_print_push(fields@, docs, field, ("packed"@, Json::True));
            docs = docs + seq![("packed"@, Json::True)];
        }
        fields.push(field);
    } else {
        assert(docs + Seq::<(Seq<char>, Json)>::empty() =~= docs);
    }
    if let Some(align) = repr.align {
        let field = ("align", json::number_json(align));
        proof {
            lemma_fields_print_push(fields@, docs, field, ("align"@, Json::Number(align as nat)));
            docs = docs + seq![("align"@, Json::Number(align as nat))];
        }
        fields.push(field);
    } else {
        assert(docs + Seq::<(Seq<char>, Json)>::empty() =~= docs);
    }
    assert(docs =~= repr_fields(repr));
    json::object_json(fields, Ghost(docs))
}

/// The fields of a type definition apart from the type itself: name,
/// documentation, generic parameters, serialization and representation.
pub fn build_type_def_header(
    name: &str,
    docs: &[String],
    kind: TypeKind,
    generics: &Generics,
) -> (fields: Vec<(&'static str, Value)>)
    ensures
        json::fields_print(fields@, header_fields(name@, docs@, kind, *generics)),
{
    let mut fields: Vec<(&'static str, Value)> = vec![("name", json::text_json(name))];
    let ghost mut list = seq![("name"@, Json::Text(name@))];
    assert(json::fields_print(fields@, list));
    if docs.len() > 0 {
        let field = ("docs", docs::docs_value(docs));
        proof {
            let doc = ("docs"@, docs::docs_json(text::views(docs@)));
            lemma_fields_print_push(fields@, list, field, doc);
            list = list + seq![doc];
        }
        fields.push(field);
    } else {
        assert(list + Seq::<(Seq<char>, Json)>::empty() =~= list);
    }
    let params = generic_definitions(generics);
    let ghost params_docs = generic_docs(generics.params@);
    if params.len() > 0 {
        let field = ("generics", json::list_json(params, Ghost(params_docs)));
        proof {
            lemma_fields_print_push(fields@, list, field, ("generics"@, Json::List(params_docs)));
            list = list + seq![("generics"@, Json::List(params_docs))];
        }
        fields.push(field);
    } else {
        assert(list + Seq::<(Seq<char>, Json)>::empty() =~= list);
    }
    match kind {
        TypeKind::Borsh => {
            assert(list + Seq::<(Seq<char>, Json)>::empty() =~= list);
        },
        TypeKind::BytemuckRepr(repr) => {
            let serialization = ("serialization", json::text_json("bytemuck"));
            let layout = ("repr", repr_value(repr));
            proof {
                let first = ("serialization"@, Json::Text("bytemuck"@));
                let second = ("repr"@, Json::Object(repr_fields(repr)));
                lemma_fields_print_push(fields@, list, serialization, first);
                lemma_fields_print_push(
                    fields@.push(serialization),
                    list + seq![first],
                    layout,
                    second,
                );
                assert(list + seq![first] + seq![second] =~= list + seq![first, second]);
                list = list + seq![first, second];
            }
            fields.push(serialization);
            fields.push(layout);
        },
    }
    assert(list =~= header_fields(name@, docs@, kind, *generics));
    fields
}

fn marker_list_value(marker: &str) -> (value: Value)
    ensures
        json::value_text(value) == json::json_text(marker_list(marker@)),
{
    let ghost docs = seq![Json::Text(marker@)];
    json::list_json(vec![json::text_json(marker)], Ghost(docs))
}

/// The text of a type definition before and after its fields or variants.
pub fn type_def_header_parts(
    name: &str,
    docs: &[String],
    kind: TypeKind,
    generics: &Generics,
    kind_name: &str,
) -> (parts: (String, String))
    ensures
        header_parts(name@, docs@, kind, *generics, kind_name@) == Some((parts.0@, parts.1@)),
{
    let key = if text::str_eq(kind_name, "enum") { "variants" } else { "fields" };
    let ghost payload = marker_list(FIELD_MARKER@);
    let ghost inner_docs = type_fields(kind_name@, payload);
    let ty = json::object_json(
        vec![("kind", json::text_json(kind_name)), (key, marker_list_value(FIELD_MARKER))],
        Ghost(inner_docs),
    );
    let mut fields: Vec<(&str, Value)> = build_type_def_header(name, docs, kind, generics);
    let ghost head = header_fields(name@, docs@, kind, *generics);
    let field = ("type", ty);
    proof {
        lemma_fields_print_push(fields@, head, field, ("type"@, Json::Object(inner_docs)));
        slots::lemma_header_marker_found(name@, docs@, kind, *generics, kind_name@);
    }
    fields.push(field);
    let ghost list = head.push(("type"@, Json::Object(inner_docs)));
    let header = json::value_to_string(&json::object_json(fields, Ghost(list)));
    let marker = json::value_to_string(&json::text_json(FIELD_MARKER));
    match text::split_once(header.as_str(), marker.as_str()) {
        Some((prefix, suffix)) => (prefix.to_owned(), suffix.to_owned()),
        None => (String::new(), String::new()),
    }
}

fn variant_header_parts(name: &str) -> (parts: (String, String))
    ensures
        variant_parts(name@) == Some((parts.0@, parts.1@)),
{
    let ghost list = seq![
        ("name"@, Json::Text(name@)),
        ("fields"@, marker_list(VARIANT_FIELD_MARKER@)),
    ];
    let value = json::object_json(
        vec![
            ("name", json::text_json(name)),
            ("fields", marker_list_value(VARIANT_FIELD_MARKER)),
        ],
        Ghost(list),
    );
    let header = json::value_to_string(&value);
    let marker = json::value_to_string(&json::text_json(VARIANT_FIELD_MARKER));
    proof {
        slots::lemma_variant_marker_found(name@);
    }
    match text::split_once(header.as_str(), marker.as_str()) {
        Some((prefix, suffix)) => (prefix.to_owned(), suffix.to_owned()),
        None => (String::new(), String::new()),
    }
}

// ---------------------------------------------------------------------------
// Fields
// ---------------------------------------------------------------------------

/// The IDL value of a named field: name, documentation and type.
pub fn named_field_value<'a>(f: &'a Field, lowerer: &mut TypeLowerer<'a>) -> (value: Value)
    requires
        f.ident is Some,
    ensures
        json::value_text(value) == json::json_text(
            field_json(*f, old(lowerer).generics, old(lowerer).open_lengths().len()),
        ),
        final(lowerer).generics == old(lowerer).generics,
        final(lowerer).open_lengths() == old(lowerer).open_lengths() + lower::dynamic_lengths(
            f.ty,
            old(lowerer).generics,
        ),
{
    let name = match &f.ident {
        Some(ident) => ident.as_str(),
        None => "",
    };
    let ghost ty_doc = lower::lowered(f.ty, lowerer.generics, lowerer.open_lengths().len());
    let mut fields: Vec<(&str, Value)> = vec![("name", json::text_json(name))];
    let ghost mut list = seq![("name"@, Json::Text(name@))];
    assert(json::fields_print(fields@, list));
    let lines = docs::extract_doc_lines(f.attrs.as_slice());
    assert(text::views(lines@).len() == lines@.len());
    if lines.len() > 0 {
        let field = ("docs", docs::docs_value(lines.as_slice()));
        proof {
            let doc = ("docs"@, docs::docs_json(docs::doc_lines(f.attrs@)));
            lemma_fields_print_push(fields@, list, field, doc);
            list = list + seq![doc];
        }
        fields.push(field);
    } else {
        assert(list + Seq::<(Seq<char>, Json)>::empty() =~= list);
    }
    let field = ("type", lowerer.lower(&f.ty));
    proof {
        lemma_fields_print_push(fields@, list, field, ("type"@, ty_doc));
        list = list.push(("type"@, ty_doc));
    }
    fields.push(field);
    json::object_json(fields, Ghost(list))
}

pub proof fn lemma_field_open(f: Field, generics: Option<&Generics>, next: nat)
    ensures
        lengths::open_in(field_json(f, generics, next)) == lengths::open_in(
            lower::lowered(f.ty, generics, next),
        ),
{
    let lines = docs::doc_lines(f.attrs@);
    let fields = (seq![("name"@, Json::Text(f.ident->0@))] + field_if(
        lines.len() > 0,
        "docs"@,
        docs::docs_json(lines),
    )).push(("type"@, lower::lowered(f.ty, generics, next)));
    lengths::lemma_leaf(Json::Text(f.ident->0@));
    slots::lemma_docs_closed(lines);
    symbols::lemma_object_marks(fields);
}

fn named_field_emission(field: &Field, generics: &Generics) -> (ts: TokenStream)
    requires
        field.ident is Some,
    ensures
        tokens::stream_tokens(ts) == entry_tokens(field_code(*field, true, *generics)),
{
    let mut lowerer = TypeLowerer::with_generics(generics);
    let value = named_field_value(field, &mut lowerer);
    proof {
        let count = lower::dynamic_lengths(field.ty, Some(generics)).len();
        lemma_field_open(*field, Some(generics), 0);
        lengths::lemma_lowered_covers(field.ty, Some(generics), 0);
        symbols::lemma_markers_found(field_json(*field, Some(generics), 0), count);
        assert(lowerer.open_lengths() =~= lower::dynamic_lengths(field.ty, Some(generics)));
    }
    lowerer.finish(value)
}

fn unnamed_field_emission(field: &Field, generics: &Generics) -> (ts: TokenStream)
    ensures
        tokens::stream_tokens(ts) == entry_tokens(field_code(*field, false, *generics)),
{
    let mut lowerer = TypeLowerer::with_generics(generics);
    let value = lowerer.lower(&field.ty);
    proof {
        let count = lower::dynamic_lengths(field.ty, Some(generics)).len();
        lengths::lemma_lowered_covers(field.ty, Some(generics), 0);
        symbols::lemma_markers_found(lower::lowered(field.ty, Some(generics), 0), count);
        assert(lowerer.open_lengths() =~= lower::dynamic_lengths(field.ty, Some(generics)));
    }
    lowerer.finish(value)
}

fn emit_entry_push(ts: &mut TokenStream, cfg_attrs: &Vec<TokenStream>, entry: TokenStream)
    ensures
        tokens::stream_tokens(*final(ts)) == tokens::stream_tokens(*old(ts)) + entry_push(
            cfg_attrs@,
            tokens::stream_tokens(entry),
        ),
{
    let ghost before = tokens::stream_tokens(*ts);
    let mut i: usize = 0;
    proof {
        assert(cfg_attrs@.take(0) =~= Seq::empty());
        assert(before + all_tokens(cfg_attrs@.take(0)) =~= before);
    }
    while i < cfg_attrs.len()
        invariant
            i <= cfg_attrs@.len(),
            tokens::stream_tokens(*ts) == before + all_tokens(cfg_attrs@.take(i as int)),
        decreases cfg_attrs@.len() - i,
    {
        tokens::push_stream(ts, &cfg_attrs[i]);
        i = i + 1;
        proof {
            let taken = cfg_attrs@.take(i as int);
            assert(taken.drop_last() =~= cfg_attrs@.take(i - 1));
            assert(tokens::stream_tokens(*ts) =~= before + all_tokens(taken));
        }
    }
    assert(cfg_attrs@.take(i as int) =~= cfg_attrs@);
    tokens::push_words(ts, "__entries");
    tokens::push_words(ts, ". push");
    tokens::push_group(ts, Delim::Paren, entry);
    tokens::push_words(ts, ";");
    assert(tokens::stream_tokens(*ts) =~= before + entry_push(
        cfg_attrs@,
        tokens::stream_tokens(entry),
    ));
}

fn field_push_stmt(ts: &mut TokenStream, field: &Field, generics: &Generics)
    requires
        field.ident is Some,
    ensures
        tokens::stream_tokens(*final(ts)) == tokens::stream_tokens(*old(ts)) + entry_push(
            field.cfg_attrs@,
            entry_tokens(field_code(*field, true, *generics)),
        ),
{
    let entry = named_field_emission(field, generics);
    emit_entry_push(ts, &field.cfg_attrs, entry);
}

proof fn lemma_pushes_take(entries: Seq<CodeEntry>, i: int)
    requires
        0 < i <= entries.len(),
    ensures
        pushes_tokens(entries.take(i)) == pushes_tokens(entries.take(i - 1)) + entry_push(
            entries[i - 1].cfg_attrs,
            entry_tokens(entries[i - 1].code),
        ),
{
    assert(entries.take(i).drop_last() =~= entries.take(i - 1));
    assert(entries.take(i).last() == entries[i - 1]);
}

fn emit_field_pushes(fields: &Fields, generics: &Generics) -> (ts: TokenStream)
    requires
        fields_are_named(*fields),
    ensures
        tokens::stream_tokens(ts) == pushes_tokens(field_entries(*fields, *generics)),
{
    let mut ts = tokens::stream_new();
    let ghost entries = field_entries(*fields, *generics);
    assert(entries.take(0) =~= Seq::empty());
    match fields {
        Fields::Named(list) => {
            let mut i: usize = 0;
            while i < list.len()
                invariant
                    i <= list@.len(),
                    entries == list_entries(list@, true, *generics),
                    forall|k: int| 0 <= k < list@.len() ==> (#[trigger] list@[k]).ident is Some,
                    tokens::stream_tokens(ts) == pushes_tokens(entries.take(i as int)),
                decreases list@.len() - i,
            {
                field_push_stmt(&mut ts, &list[i], generics);
                i = i + 1;
                proof {
                    lemma_pushes_take(entries, i as int);
                }
            }
            assert(entries.take(i as int) =~= entries);
        },
        Fields::Unnamed(list) => {
            let mut i: usize = 0;
            while i < list.len()
                invariant
                    i <= list@.len(),
                    entries == list_entries(list@, false, *generics),
                    tokens::stream_tokens(ts) == pushes_tokens(entries.take(i as int)),
                decreases list@.len() - i,
            {
                let entry = unnamed_field_emission(&list[i], generics);
                emit_entry_push(&mut ts, &list[i].cfg_attrs, entry);
                i = i + 1;
                proof {
                    lemma_pushes_take(entries, i as int);
                }
            }
            assert(entries.take(i as int) =~= entries);
        },
        Fields::Unit => {
            assert(entries =~= Seq::empty());
        },
    }
    ts
}

// ---------------------------------------------------------------------------
// Structs and enums
// ---------------------------------------------------------------------------

fn emit_join_stmts(prefix: &str, pushes: &TokenStream, suffix: &str) -> (ts: TokenStream)
    ensures
        tokens::stream_tokens(ts) == join_stmts(prefix@, tokens::stream_tokens(*pushes), suffix@),
{
    let mut ts = tokens::words_stream("let mut");
    tokens::push_words(&mut ts, "__entries");
    tokens::push_words(&mut ts, ":");
    tokens::push_words(&mut ts, "anchor_lang :: __alloc :: vec :: Vec < & 'static str >");
    tokens::push_words(&mut ts, "=");
    tokens::push_words(&mut ts, "anchor_lang :: __alloc :: vec :: Vec :: new");
    tokens::push_unit(&mut ts);
    tokens::push_words(&mut ts, ";");
    tokens::push_stream(&mut ts, pushes);
    pushes::emit_let_string(&mut ts, "__s", prefix);
    pushes::emit_join_loop(&mut ts, false, "__entry", "__entries");
    pushes::emit_push_text(&mut ts, "__s", suffix);
    ts
}

fn build_joined_entry_emission(prefix: &str, pushes: &TokenStream, suffix: &str) -> (ts:
    TokenStream)
    ensures
        tokens::stream_tokens(ts) == joined_entry_expr(
            prefix@,
            tokens::stream_tokens(*pushes),
            suffix@,
        ),
{
    let mut body = emit_join_stmts(prefix, pushes, suffix);
    tokens::push_stream(&mut body, &pushes::emit_leak());
    let mut ts = tokens::stream_new();
    tokens::push_group(&mut ts, Delim::Brace, body);
    assert(tokens::stream_tokens(ts) =~= tokens::group(Delim::Brace, tokens::stream_tokens(body)));
    ts
}

fn build_joined_type_def_emission(prefix: &str, suffix: &str, pushes: &TokenStream) -> (ts:
    TokenStream)
    ensures
        tokens::stream_tokens(ts) == joined_type_def_expr(
            prefix@,
            tokens::stream_tokens(*pushes),
            suffix@,
        ),
{
    let mut body = emit_join_stmts(prefix, pushes, suffix);
    tokens::push_words(&mut body, ":: core :: option :: Option :: Some");
    tokens::push_group(&mut body, Delim::Paren, pushes::emit_leak());
    let mut ts = tokens::stream_new();
    tokens::push_group(&mut ts, Delim::Brace, body);
    assert(tokens::stream_tokens(ts) =~= tokens::group(Delim::Brace, tokens::stream_tokens(body)));
    ts
}

fn variant_emission(variant: &Variant, generics: &Generics) -> (ts: TokenStream)
    requires
        fields_are_named(variant.fields),
    ensures
        tokens::stream_tokens(ts) == entry_tokens(variant_code(*variant, *generics)),
{
    let name = variant.ident.as_str();
    match &variant.fields {
        Fields::Unit => {
            let ghost list = seq![("name"@, Json::Text(name@))];
            let value = json::object_json(vec![("name", json::text_json(name))], Ghost(list));
            let printed = json::value_to_string(&value);
            let mut ts = tokens::stream_new();
            tokens::push_str_literal(&mut ts, printed.as_str());
            assert(tokens::stream_tokens(ts) =~= seq![Token::Str(printed@)]);
            ts
        },
        fields => {
            let (prefix, suffix) = variant_header_parts(name);
            let pushes = emit_field_pushes(fields, generics);
            build_joined_entry_emission(prefix.as_str(), &pushes, suffix.as_str())
        },
    }
}

fn variant_push_stmt(ts: &mut TokenStream, variant: &Variant, generics: &Generics)
    requires
        fields_are_named(variant.fields),
    ensures
        tokens::stream_tokens(*final(ts)) == tokens::stream_tokens(*old(ts)) + entry_push(
            variant.cfg_attrs@,
            entry_tokens(variant_code(*variant, *generics)),
        ),
{
    let entry = variant_emission(variant, generics);
    emit_entry_push(ts, &variant.cfg_attrs, entry);
}

/// A generated expression for the type definition of a struct.
pub fn build_struct_type_def_emission(
    name: &str,
    docs: &[String],
    fields: &Fields,
    kind: TypeKind,
    generics: &Generics,
) -> (ts: TokenStream)
    requires
        fields_are_named(*fields),
    ensures
        header_parts(name@, docs@, kind, *generics, "struct"@) matches Some((prefix, suffix))
            && tokens::stream_tokens(ts) == joined_type_def_expr(
            prefix,
            pushes_tokens(field_entries(*fields, *generics)),
            suffix,
        ),
        surround::header_free(name@, docs@, *generics) && printing::fields_closed(
            *fields,
            *generics,
        ) ==> forall|build: Build|
            code::evaluates(
                tokens::stream_tokens(ts),
                build,
                Data::Maybe(
                    Some(
                        #[trigger] definitions::struct_value(
                            name@,
                            docs@,
                            kind,
                            *generics,
                            *fields,
                            build,
                        ),
                    ),
                ),
            ),
{
    let (prefix, suffix) = type_def_header_parts(name, docs, kind, generics, "struct");
    let pushes = emit_field_pushes(fields, generics);
    let ts = build_joined_type_def_emission(prefix.as_str(), suffix.as_str(), &pushes);
    proof {
        if surround::header_free(name@, docs@, *generics) && printing::fields_closed(
            *fields,
            *generics,
        ) {
            assert forall|build: Build|
                code::evaluates(
                    tokens::stream_tokens(ts),
                    build,
                    Data::Maybe(
                        Some(
                            #[trigger] definitions::struct_value(
                                name@,
                                docs@,
                                kind,
                                *generics,
                                *fields,
                                build,
                            ),
                        ),
                    ),
                ) by {
                definitions::law_struct_code_evaluates_to_the_definition(
                    name@,
                    docs@,
                    kind,
                    *generics,
                    *fields,
                    build,
                );
            }
        }
    }
    ts
}

/// A generated expression for the type definition of an enum.
pub fn build_enum_type_def_emission(
    name: &str,
    docs: &[String],
    variants: &[Variant],
    kind: TypeKind,
    generics: &Generics,
) -> (ts: TokenStream)
    requires
        forall|i: int| 0 <= i < variants@.len() ==> fields_are_named((#[trigger] variants@[i]).fields),
    ensures
        header_parts(name@, docs@, kind, *generics, "enum"@) matches Some((prefix, suffix))
            && tokens::stream_tokens(ts) == joined_type_def_expr(
            prefix,
            pushes_tokens(variant_entries(variants@, *generics)),
            suffix,
        ),
        surround::header_free(name@, docs@, *generics) && (forall|i: int|
            0 <= i < variants@.len() ==> printing::fields_closed(
                (#[trigger] variants@[i]).fields,
                *generics,
            )) ==> forall|build: Build|
            code::evaluates(
                tokens::stream_tokens(ts),
                build,
                Data::Maybe(
                    Some(
                        #[trigger] definitions::enum_value(
                            name@,
                            docs@,
                            kind,
                            *generics,
                            variants@,
                            build,
                        ),
                    ),
                ),
            ),
{
    let (prefix, suffix) = type_def_header_parts(name, docs, kind, generics, "enum");
    let mut pushes = tokens::stream_new();
    let mut i: usize = 0;
    let ghost entries = variant_entries(variants@, *generics);
    assert(entries.take(0) =~= Seq::empty());
    while i < variants.len()
        invariant
            i <= variants@.len(),
            forall|k: int|
                0 <= k < variants@.len() ==> fields_are_named((#[trigger] variants@[k]).fields),
            entries == variant_entries(variants@, *generics),
            tokens::stream_tokens(pushes) == pushes_tokens(entries.take(i as int)),
        decreases variants@.len() - i,
    {
        variant_push_stmt(&mut pushes, &variants[i], generics);
        i = i + 1;
        proof {
            lemma_pushes_take(entries, i as int);
        }
    }
    assert(entries.take(i as int) =~= entries);
    let ts = build_joined_type_def_emission(prefix.as_str(), suffix.as_str(), &pushes);
    proof {
        if surround::header_free(name@, docs@, *generics) && (forall|i: int|
            0 <= i < variants@.len() ==> printing::fields_closed(
                (#[trigger] variants@[i]).fields,
                *generics,
            )) {
            assert forall|build: Build|
                code::evaluates(
                    tokens::stream_tokens(ts),
                    build,
                    Data::Maybe(
                        Some(
                            #[trigger] definitions::enum_value(
                                name@,
                                docs@,
                                kind,
                                *generics,
                                variants@,
                                build,
                            ),
                        ),
                    ),
                ) by {
                definitions::law_enum_code_evaluates_to_the_definition(
                    name@,
                    docs@,
                    kind,
                    *generics,
                    variants@,
                    build,
                );
            }
        }
    }
    ts
}

/// A type definition has no discriminator: that belongs to the account entry.
pub proof fn law_type_defs_have_no_discriminator(
    name: Seq<char>,
    lines: Seq<String>,
    kind: TypeKind,
    generics: Generics,
    i: int,
)
    requires
        0 <= i < header_fields(name, lines, kind, generics).len(),
    ensures
        header_fields(name, lines, kind, generics)[i].0 != "discriminator"@,
{
    reveal_strlit("name");
    reveal_strlit("docs");
    reveal_strlit("generics");
    reveal_strlit("serialization");
    reveal_strlit("repr");
    reveal_strlit("discriminator");
    let fields = header_fields(name, lines, kind, generics);
    let front = fields.len() - kind_fields(kind).len();
    assert("discriminator"@[1] == 'i');
    assert("name"@[0] == 'n' && "docs"@[1] == 'o' && "generics"@[0] == 'g' && "serialization"@[0]
        == 's' && "repr"@[0] == 'r');
    if i >= front {
        assert(fields[i] == kind_fields(kind)[i - front]);
        assert(fields[i].0 == "serialization"@ || fields[i].0 == "repr"@);
    } else {
        assert(fields[i].0 == "name"@ || fields[i].0 == "docs"@ || fields[i].0 == "generics"@);
    }
}

} // verus!
