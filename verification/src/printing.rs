//! What the generated type definitions print.

use crate::docs;
use crate::fill;
use crate::json::{self, Json};
use crate::lengths;
use crate::lower;
use crate::pushes;
use crate::setting::Build;
use crate::splice;
use crate::surround;
use crate::syntax::{Expr, Field, Fields, Generics, Variant};
use crate::tokens;
use crate::typedefs::{self, CodeEntry, EntryCode, TypeKind};
use vstd::prelude::*;
use vstd::string::*;

verus! {

// ---------------------------------------------------------------------------
// Evaluation
// ---------------------------------------------------------------------------

/// The digits of the `k`-th length.
pub open spec fn digits(lengths: Seq<Expr>, build: Build) -> spec_fn(nat) -> Seq<char> {
    |k: nat| (build.length)(tokens::stream_tokens(lengths[k as int].tokens))
}

/// What the statements [`typedefs::join_stmts`] make of the entries.
pub open spec fn joined_text(
    prefix: Seq<char>,
    entries: Seq<Seq<char>>,
    suffix: Seq<char>,
) -> Seq<char> {
    pushes::looped(false, prefix, entries) + suffix
}

/// What the expression [`typedefs::entry_tokens`] evaluates to.
pub open spec fn entry_text(code: EntryCode, build: Build) -> Seq<char>
    decreases code,
{
    match code {
        EntryCode::Document(doc, lengths) => fill::printed(
            splice::length_steps(json::json_text(doc), 0, lengths.len()),
            digits(lengths, build),
        ),
        EntryCode::Joined(prefix, entries, suffix) => joined_text(
            prefix,
            pushed_texts(entries, build),
            suffix,
        ),
    }
}

/// What the statements [`typedefs::pushes_tokens`] push: an entry whose `cfg`
/// attributes do not hold is not compiled.
pub open spec fn pushed_texts(entries: Seq<CodeEntry>, build: Build) -> Seq<Seq<char>>
    decreases entries,
{
    if entries.len() == 0 {
        Seq::empty()
    } else {
        let front = pushed_texts(entries.drop_last(), build);
        let last = entries.last();
        if (build.holds)(typedefs::all_tokens(last.cfg_attrs)) {
            front.push(entry_text(last.code, build))
        } else {
            front
        }
    }
}

// ---------------------------------------------------------------------------
// Fields
// ---------------------------------------------------------------------------

/// The text of a field, its open lengths filled in.
pub open spec fn field_text(f: Field, named: bool, generics: Generics, build: Build) -> Seq<char> {
    json::text_with(
        typedefs::field_document(f, named, generics),
        digits(lower::dynamic_lengths(f.ty, Some(&generics)), build),
    )
}

/// The texts of the fields whose `cfg` attributes hold.
pub open spec fn field_texts(
    fields: Seq<Field>,
    named: bool,
    generics: Generics,
    build: Build,
) -> Seq<Seq<char>>
    decreases fields.len(),
{
    if fields.len() == 0 {
        Seq::empty()
    } else {
        let front = field_texts(fields.drop_last(), named, generics, build);
        let last = fields.last();
        if (build.holds)(typedefs::all_tokens(last.cfg_attrs@)) {
            front.push(field_text(last, named, generics, build))
        } else {
            front
        }
    }
}

/// The array of the fields.
pub open spec fn fields_text(fields: Fields, generics: Generics, build: Build) -> Seq<char> {
    json::array_text(
        field_texts(typedefs::field_list(fields), fields is Named, generics, build),
    )
}

/// No length in the vectors of plain data among the fields is left open.
pub open spec fn fields_closed(fields: Fields, generics: Generics) -> bool {
    forall|i: int|
        0 <= i < typedefs::field_list(fields).len() ==> lengths::pod_vecs_closed(
            (#[trigger] typedefs::field_list(fields)[i]).ty,
            Some(&generics),
        )
}

/// The expression that is generated for a field prints the IDL form of the
/// field with the value of every length expression in its place.
pub proof fn law_generated_code_prints_the_field(
    f: Field,
    named: bool,
    generics: Generics,
    build: Build,
)
    requires
        lengths::pod_vecs_closed(f.ty, Some(&generics)),
    ensures
        entry_text(typedefs::field_code(f, named, generics), build) == field_text(
            f,
            named,
            generics,
            build,
        ),
{
    let lines = docs::doc_lines(f.attrs@);
    let ty_doc = lower::lowered(f.ty, Some(&generics), 0);
    let exprs = lower::dynamic_lengths(f.ty, Some(&generics));
    if named {
        let front = seq![("name"@, Json::Text(f.ident->0@))] + typedefs::field_if(
            lines.len() > 0,
            "docs"@,
            docs::docs_json(lines),
        );
        fill::lemma_idl_keys();
        typedefs::lemma_field_open(f, Some(&generics), 0);
        lengths::lemma_lowered_open(f.ty, Some(&generics), 0);
        fill::lemma_lowered_plain(f.ty, Some(&generics), 0);
        let items = Seq::new(lines.len(), |i: int| Json::Text(lines[i]));
        fill::lemma_plain_items(items);
        fill::lemma_plain_fields(front.push(("type"@, ty_doc)));
        fill::law_generated_code_prints_the_document(
            typedefs::field_json(f, Some(&generics), 0),
            exprs.len(),
            digits(exprs, build),
        );
    } else {
        fill::law_generated_code_prints_the_lowered_type(
            f.ty,
            Some(&generics),
            digits(exprs, build),
        );
    }
}

proof fn lemma_pushed_fields(
    fields: Seq<Field>,
    named: bool,
    generics: Generics,
    build: Build,
)
    requires
        forall|i: int|
            0 <= i < fields.len() ==> lengths::pod_vecs_closed(
                (#[trigger] fields[i]).ty,
                Some(&generics),
            ),
    ensures
        pushed_texts(typedefs::list_entries(fields, named, generics), build) == field_texts(
            fields,
            named,
            generics,
            build,
        ),
    decreases fields.len(),
{
    if fields.len() > 0 {
        let front = fields.drop_last();
        assert forall|i: int| 0 <= i < front.len() implies lengths::pod_vecs_closed(
            (#[trigger] front[i]).ty,
            Some(&generics),
        ) by {
            assert(front[i] == fields[i]);
        }
        lemma_pushed_fields(front, named, generics, build);
        assert(typedefs::list_entries(fields, named, generics).drop_last()
            =~= typedefs::list_entries(front, named, generics));
        assert(lengths::pod_vecs_closed(fields[fields.len() - 1].ty, Some(&generics)));
        law_generated_code_prints_the_field(fields.last(), named, generics, build);
    }
}

// ---------------------------------------------------------------------------
// Structs
// ---------------------------------------------------------------------------

/// The text of a type definition whose fields or variants print as `payload`.
pub open spec fn type_def_text(
    name: Seq<char>,
    lines: Seq<String>,
    kind: TypeKind,
    generics: Generics,
    kind_name: Seq<char>,
    payload: Seq<char>,
) -> Seq<char> {
    json::text_with(
        typedefs::type_def_json(name, lines, kind, generics, kind_name, Json::Length(0)),
        |i: nat| payload,
    )
}

/// The code that is generated for a struct prints its type definition: the
/// header around the IDL forms of the fields, in order.
pub proof fn law_generated_code_prints_the_struct(
    name: Seq<char>,
    lines: Seq<String>,
    kind: TypeKind,
    generics: Generics,
    fields: Fields,
    build: Build,
)
    requires
        surround::header_free(name, lines, generics),
        fields_closed(fields, generics),
    ensures
        typedefs::header_parts(name, lines, kind, generics, "struct"@) matches Some(
            (prefix, suffix),
        ) && joined_text(
            prefix,
            pushed_texts(typedefs::field_entries(fields, generics), build),
            suffix,
        ) == type_def_text(
            name,
            lines,
            kind,
            generics,
            "struct"@,
            fields_text(fields, generics, build),
        ),
{
    let list = typedefs::field_list(fields);
    let texts = field_texts(list, fields is Named, generics, build);
    lemma_pushed_fields(list, fields is Named, generics, build);
    surround::law_type_def_parts_surround_the_payload(
        name,
        lines,
        kind,
        generics,
        "struct"@,
        texts,
    );
    let (prefix, _) = typedefs::header_parts(name, lines, kind, generics, "struct"@)->0;
    pushes::law_loop_joins_the_items(false, prefix, texts);
}

// ---------------------------------------------------------------------------
// Enums
// ---------------------------------------------------------------------------

/// The text of a variant: its name and, unless it is a unit, its fields.
pub open spec fn variant_text(v: Variant, generics: Generics, build: Build) -> Seq<char> {
    match v.fields {
        Fields::Unit => json::json_text(typedefs::unit_variant_json(v.ident@)),
        _ => json::text_with(
            typedefs::variant_json(v.ident@, Json::Length(0)),
            |i: nat| fields_text(v.fields, generics, build),
        ),
    }
}

/// The texts of the variants whose `cfg` attributes hold.
pub open spec fn variant_texts(variants: Seq<Variant>, generics: Generics, build: Build) -> Seq<
    Seq<char>,
>
    decreases variants.len(),
{
    if variants.len() == 0 {
        Seq::empty()
    } else {
        let front = variant_texts(variants.drop_last(), generics, build);
        let last = variants.last();
        if (build.holds)(typedefs::all_tokens(last.cfg_attrs@)) {
            front.push(variant_text(last, generics, build))
        } else {
            front
        }
    }
}

/// The expression that is generated for a variant prints the variant with the
/// IDL forms of its fields, in order.
pub proof fn law_generated_code_prints_the_variant(v: Variant, generics: Generics, build: Build)
    requires
        fields_closed(v.fields, generics),
    ensures
        entry_text(typedefs::variant_code(v, generics), build) == variant_text(v, generics, build),
{
    match v.fields {
        Fields::Unit => {
            fill::lemma_printed_text(
                json::json_text(typedefs::unit_variant_json(v.ident@)),
                digits(Seq::empty(), build),
            );
        },
        _ => {
            let list = typedefs::field_list(v.fields);
            let texts = field_texts(list, v.fields is Named, generics, build);
            lemma_pushed_fields(list, v.fields is Named, generics, build);
            surround::law_variant_parts_surround_the_fields(v.ident@, texts);
            let (prefix, _) = typedefs::variant_parts(v.ident@)->0;
            pushes::law_loop_joins_the_items(false, prefix, texts);
        },
    }
}

proof fn lemma_pushed_variants(variants: Seq<Variant>, generics: Generics, build: Build)
    requires
        forall|i: int|
            0 <= i < variants.len() ==> fields_closed((#[trigger] variants[i]).fields, generics),
    ensures
        pushed_texts(typedefs::variant_entries(variants, generics), build) == variant_texts(
            variants,
            generics,
            build,
        ),
    decreases variants.len(),
{
    if variants.len() > 0 {
        let front = variants.drop_last();
        assert forall|i: int| 0 <= i < front.len() implies fields_closed(
            (#[trigger] front[i]).fields,
            generics,
        ) by {
            assert(front[i] == variants[i]);
        }
        lemma_pushed_variants(front, generics, build);
        assert(typedefs::variant_entries(variants, generics).drop_last()
            =~= typedefs::variant_entries(front, generics));
        assert(fields_closed(variants[variants.len() - 1].fields, generics));
        law_generated_code_prints_the_variant(variants.last(), generics, build);
    }
}

/// The code that is generated for an enum prints its type definition: the
/// header around the variants, in order.
pub proof fn law_generated_code_prints_the_enum(
    name: Seq<char>,
    lines: Seq<String>,
    kind: TypeKind,
    generics: Generics,
    variants: Seq<Variant>,
    build: Build,
)
    requires
        surround::header_free(name, lines, generics),
        forall|i: int|
            0 <= i < variants.len() ==> fields_closed((#[trigger] variants[i]).fields, generics),
    ensures
        typedefs::header_parts(name, lines, kind, generics, "enum"@) matches Some(
            (prefix, suffix),
        ) && joined_text(
            prefix,
            pushed_texts(typedefs::variant_entries(variants, generics), build),
            suffix,
        ) == type_def_text(
            name,
            lines,
            kind,
            generics,
            "enum"@,
            json::array_text(variant_texts(variants, generics, build)),
        ),
{
    let texts = variant_texts(variants, generics, build);
    lemma_pushed_variants(variants, generics, build);
    surround::law_type_def_parts_surround_the_payload(name, lines, kind, generics, "enum"@, texts);
    let (prefix, _) = typedefs::header_parts(name, lines, kind, generics, "enum"@)->0;
    pushes::law_loop_joins_the_items(false, prefix, texts);
}

} // verus!
