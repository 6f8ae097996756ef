//! What each kind of Rust type is in the IDL.

use crate::builtins;
use crate::json::Json;
use crate::lower;
use crate::syntax::{
    Expr, ExprPath, ExprShape, GenericArgument, GenericParam, Generics, Lit, Path, PathArguments,
    PathSegment, Type, TypeShape,
};
use crate::text;
use crate::tokens;
use vstd::prelude::*;
use vstd::string::*;

verus! {

// ---------------------------------------------------------------------------
// Reading paths
// ---------------------------------------------------------------------------

/// The path is `..PodVec<T, N>` with a type and a constant.
pub open spec fn names_pod_vec(path: Path) -> bool {
    let last = path.segments@[path.segments@.len() - 1];
    path.segments@.len() > 0 && last.ident@ == "PodVec"@ && (last.arguments
        matches PathArguments::AngleBracketed(args) && args@.len() == 2 && args@[0] is Type
        && args@[1] is Const)
}

/// The path is a single identifier, that of a type parameter of the item.
pub open spec fn names_param(path: Path, generics: Option<&Generics>) -> bool {
    &&& !path.leading_colon
    &&& path.segments@.len() == 1
    &&& path.segments@[0].arguments is Absent
    &&& generics is Some
    &&& exists|i: int|
        0 <= i < generics->0.params@.len() && (#[trigger] generics->0.params@[i]) is Type
            && generics->0.params@[i]->Type_0@ == path.segments@[0].ident@
}

/// The path by which a type is known: the identifiers with `::` between them,
/// without a known module path before them.
pub open spec fn known_as(path: Path) -> Seq<char> {
    builtins::normalized(lower::path_text(path.segments@))
}

/// An ordinary path: it has segments and is neither a `PodVec` nor a parameter.
pub open spec fn is_ordinary(ty: Type, generics: Option<&Generics>) -> bool {
    ty.shape matches TypeShape::Path(p) && p.path.segments@.len() > 0 && !names_pod_vec(p.path)
        && !names_param(p.path, generics)
}

/// The names of the numbers and of the truth value.
pub open spec fn is_number_name(name: Seq<char>) -> bool {
    name == "u8"@ || name == "u16"@ || name == "u32"@ || name == "u64"@ || name == "u128"@ || name
        == "i8"@ || name == "i16"@ || name == "i32"@ || name == "i64"@ || name == "i128"@ || name
        == "f32"@ || name == "f64"@ || name == "bool"@
}

/// The names of the plain-old-data wrappers.
pub open spec fn is_pod_name(name: Seq<char>) -> bool {
    name == "PodU16"@ || name == "PodU32"@ || name == "PodU64"@ || name == "PodU128"@ || name
        == "PodI16"@ || name == "PodI32"@ || name == "PodI64"@ || name == "PodI128"@ || name
        == "PodBool"@
}

/// The names that the IDL knows.
pub open spec fn is_known_name(name: Seq<char>) -> bool {
    is_number_name(name) || is_pod_name(name) || name == "String"@ || name == "string"@ || name
        == "str"@ || name == "Pubkey"@ || name == "Address"@ || name == "pubkey"@ || name == "Vec"@
        || name == "Option"@ || name == "Box"@
}

proof fn lemma_ordinary(ty: Type, generics: Option<&Generics>)
    requires
        is_ordinary(ty, generics),
    ensures
        lower::pod_vec(ty) is None,
        ty.shape is Path,
        !(ty.shape->Path_0.path.ident() is Some && lower::has_type_param(
            generics,
            ty.shape->Path_0.path.ident()->0,
        )),
{
    let p = ty.shape->Path_0;
    if p.path.ident() is Some && lower::has_type_param(generics, p.path.ident()->0) {
        let g = generics->0;
        let i = choose|i: int|
            0 <= i < g.params@.len() && (#[trigger] g.params@[i] matches GenericParam::Type(n)
                && n@ == p.path.ident()->0);
        assert(g.params@[i] is Type && g.params@[i]->Type_0@ == p.path.segments@[0].ident@);
        assert(names_param(p.path, generics));
    }
    if lower::is_pod_vec(p.path) {
        assert(names_pod_vec(p.path));
    }
}

// ---------------------------------------------------------------------------
// Paths
// ---------------------------------------------------------------------------

/// A path to a type that the IDL does not know is a type of the program, named
/// by its last identifier.
pub proof fn law_other_types_are_defined(ty: Type, generics: Option<&Generics>, next: nat)
    requires
        is_ordinary(ty, generics),
        !is_known_name(known_as(ty.shape->Path_0.path)),
    ensures
        lower::lowered(ty, generics, next) == Json::Object(
            seq![
                (
                    "defined"@,
                    Json::Object(
                        seq![("name"@, Json::Text(ty.shape->Path_0.path.segments@.last().ident@))],
                    ),
                ),
            ],
        ),
        lower::dynamic_lengths(ty, generics).len() == 0,
{
    lemma_ordinary(ty, generics);
}

/// Numbers and the truth value are themselves.
pub proof fn law_numbers_are_themselves(ty: Type, generics: Option<&Generics>, next: nat)
    requires
        is_ordinary(ty, generics),
        is_number_name(known_as(ty.shape->Path_0.path)),
    ensures
        lower::lowered(ty, generics, next) == Json::Text(known_as(ty.shape->Path_0.path)),
        lower::dynamic_lengths(ty, generics).len() == 0,
{
    lemma_ordinary(ty, generics);
    builtins::lemma_containers_are_no_leaves(known_as(ty.shape->Path_0.path));
}

/// A plain-old-data wrapper is what it holds.
pub proof fn law_pod_wrappers_are_what_they_hold(ty: Type, generics: Option<&Generics>, next: nat)
    requires
        is_ordinary(ty, generics),
        is_pod_name(known_as(ty.shape->Path_0.path)),
    ensures
        ({
            let name = known_as(ty.shape->Path_0.path);
            let j = lower::lowered(ty, generics, next);
            &&& name == "PodU16"@ ==> j == Json::Text("u16"@)
            &&& name == "PodU32"@ ==> j == Json::Text("u32"@)
            &&& name == "PodU64"@ ==> j == Json::Text("u64"@)
            &&& name == "PodU128"@ ==> j == Json::Text("u128"@)
            &&& name == "PodI16"@ ==> j == Json::Text("i16"@)
            &&& name == "PodI32"@ ==> j == Json::Text("i32"@)
            &&& name == "PodI64"@ ==> j == Json::Text("i64"@)
            &&& name == "PodI128"@ ==> j == Json::Text("i128"@)
            &&& name == "PodBool"@ ==> j == Json::Text("bool"@)
            &&& lower::dynamic_lengths(ty, generics).len() == 0
        }),
{
    lemma_ordinary(ty, generics);
    lemma_pod_names();
    builtins::lemma_containers_are_no_leaves(known_as(ty.shape->Path_0.path));
}

proof fn lemma_pod_names()
    ensures
        forall|name: Seq<char>| #[trigger] is_pod_name(name) ==> !builtins::is_scalar(name),
        "PodU16"@ != "PodU32"@ && "PodU16"@ != "PodU64"@ && "PodU16"@ != "PodU128"@,
        "PodU16"@ != "PodI16"@ && "PodU16"@ != "PodI32"@ && "PodU16"@ != "PodI64"@,
        "PodU16"@ != "PodI128"@ && "PodU16"@ != "PodBool"@,
        "PodU32"@ != "PodU64"@ && "PodU32"@ != "PodU128"@,
        "PodU32"@ != "PodI16"@ && "PodU32"@ != "PodI32"@ && "PodU32"@ != "PodI64"@,
        "PodU32"@ != "PodI128"@ && "PodU32"@ != "PodBool"@,
        "PodU64"@ != "PodU128"@,
        "PodU64"@ != "PodI16"@ && "PodU64"@ != "PodI32"@ && "PodU64"@ != "PodI64"@,
        "PodU64"@ != "PodI128"@ && "PodU64"@ != "PodBool"@,
        "PodU128"@ != "PodI16"@ && "PodU128"@ != "PodI32"@ && "PodU128"@ != "PodI64"@,
        "PodU128"@ != "PodI128"@ && "PodU128"@ != "PodBool"@,
        "PodI16"@ != "PodI32"@ && "PodI16"@ != "PodI64"@,
        "PodI16"@ != "PodI128"@ && "PodI16"@ != "PodBool"@,
        "PodI32"@ != "PodI64"@ && "PodI32"@ != "PodI128"@ && "PodI32"@ != "PodBool"@,
        "PodI64"@ != "PodI128"@ && "PodI64"@ != "PodBool"@,
        "PodI128"@ != "PodBool"@,
{
    reveal_strlit("PodU16");
    reveal_strlit("PodU32");
    reveal_strlit("PodU64");
    reveal_strlit("PodU128");
    reveal_strlit("PodI16");
    reveal_strlit("PodI32");
    reveal_strlit("PodI64");
    reveal_strlit("PodI128");
    reveal_strlit("PodBool");
    reveal_strlit("u8");
    reveal_strlit("u16");
    reveal_strlit("u32");
    reveal_strlit("u64");
    reveal_strlit("u128");
    reveal_strlit("i8");
    reveal_strlit("i16");
    reveal_strlit("i32");
    reveal_strlit("i64");
    reveal_strlit("i128");
    reveal_strlit("f32");
    reveal_strlit("f64");
    reveal_strlit("bool");
    assert("PodU16"@[3] == 'U' && "PodU16"@[4] == '1' && "PodU16"@[5] == '6');
    assert("PodU32"@[3] == 'U' && "PodU32"@[4] == '3');
    assert("PodU64"@[3] == 'U' && "PodU64"@[4] == '6');
    assert("PodU128"@[3] == 'U' && "PodU128"@[4] == '1' && "PodU128"@[5] == '2');
    assert("PodI16"@[3] == 'I' && "PodI16"@[4] == '1' && "PodI16"@[5] == '6');
    assert("PodI32"@[3] == 'I' && "PodI32"@[4] == '3');
    assert("PodI64"@[3] == 'I' && "PodI64"@[4] == '6');
    assert("PodI128"@[3] == 'I' && "PodI128"@[4] == '1' && "PodI128"@[5] == '2');
    assert("PodBool"@[3] == 'B');
    assert forall|name: Seq<char>| #[trigger] is_pod_name(name) implies !builtins::is_scalar(
        name,
    ) by {
        assert(name[0] == 'P');
    }
}

/// Strings and keys, under each of their names.
pub proof fn law_strings_and_keys(ty: Type, generics: Option<&Generics>, next: nat)
    requires
        is_ordinary(ty, generics),
    ensures
        ({
            let name = known_as(ty.shape->Path_0.path);
            let j = lower::lowered(ty, generics, next);
            &&& name == "String"@ || name == "string"@ || name == "str"@ ==> j == Json::Text(
                "string"@,
            )
            &&& name == "Pubkey"@ || name == "Address"@ || name == "pubkey"@ ==> j == Json::Text(
                "pubkey"@,
            )
        }),
{
    lemma_ordinary(ty, generics);
    reveal_strlit("String");
    reveal_strlit("string");
    reveal_strlit("str");
    reveal_strlit("Pubkey");
    reveal_strlit("Address");
    reveal_strlit("pubkey");
    reveal_strlit("PodU16");
    reveal_strlit("PodU32");
    reveal_strlit("PodU64");
    reveal_strlit("PodU128");
    reveal_strlit("PodI16");
    reveal_strlit("PodI32");
    reveal_strlit("PodI64");
    reveal_strlit("PodI128");
    reveal_strlit("PodBool");
    reveal_strlit("u8");
    reveal_strlit("u16");
    reveal_strlit("u32");
    reveal_strlit("u64");
    reveal_strlit("u128");
    reveal_strlit("i8");
    reveal_strlit("i16");
    reveal_strlit("i32");
    reveal_strlit("i64");
    reveal_strlit("i128");
    reveal_strlit("f32");
    reveal_strlit("f64");
    reveal_strlit("bool");
    let name = known_as(ty.shape->Path_0.path);
    if name == "String"@ || name == "string"@ || name == "str"@ || name == "Pubkey"@ || name
        == "Address"@ || name == "pubkey"@ {
        assert(name[0] == 'S' || name[0] == 's' || name[0] == 'P' || name[0] == 'A' || name[0]
            == 'p');
        assert(name[1] == 't' || name[1] == 'u' || name[1] == 'd');
        assert(!builtins::is_scalar(name));
        assert(builtins::pod_scalar(name) is None);
        assert(name == "Pubkey"@ || name == "Address"@ || name == "pubkey"@ ==> name[1] == 'u'
            || name[1] == 'd');
    }
}

/// The first type between the angle brackets of a segment is `inner`.
pub open spec fn first_type(segment: PathSegment, inner: Type) -> bool {
    segment.arguments matches PathArguments::AngleBracketed(args) && exists|k: int|
        0 <= k < args@.len() && #[trigger] args@[k] == GenericArgument::Type(inner) && forall|j: int|
            0 <= j < k ==> !(#[trigger] args@[j] is Type)
}

/// No type stands between the angle brackets of a segment.
pub open spec fn has_no_type(segment: PathSegment) -> bool {
    segment.arguments matches PathArguments::AngleBracketed(args) ==> forall|j: int|
        0 <= j < args@.len() ==> !(#[trigger] args@[j] is Type)
}

proof fn lemma_container_names(name: Seq<char>)
    ensures
        name == "Vec"@ || name == "Option"@ || name == "Box"@ <==> builtins::is_container(name),
        "Vec"@ != "Option"@,
        "Vec"@ != "Box"@,
        "Option"@ != "Box"@,
{
    reveal_strlit("Vec");
    reveal_strlit("Option");
    reveal_strlit("Box");
    assert("Vec"@[0] == 'V' && "Option"@[0] == 'O' && "Box"@[0] == 'B');
}

/// A vector is `{"vec":inner}`, an option `{"option":inner}`, and a box is what
/// it holds.
pub proof fn law_containers_hold_their_first_type(
    ty: Type,
    inner: Type,
    generics: Option<&Generics>,
    next: nat,
)
    requires
        is_ordinary(ty, generics),
        first_type(ty.shape->Path_0.path.segments@.last(), inner),
    ensures
        ({
            let name = known_as(ty.shape->Path_0.path);
            let j = lower::lowered(ty, generics, next);
            let held = lower::lowered(inner, generics, next);
            &&& name == "Vec"@ ==> j == Json::Object(seq![("vec"@, held)])
            &&& name == "Option"@ ==> j == Json::Object(seq![("option"@, held)])
            &&& name == "Box"@ ==> j == held
            &&& name == "Vec"@ || name == "Option"@ || name == "Box"@ ==> lower::dynamic_lengths(
                ty,
                generics,
            ) == lower::dynamic_lengths(inner, generics)
        }),
{
    lemma_ordinary(ty, generics);
    let name = known_as(ty.shape->Path_0.path);
    lemma_container_names(name);
    builtins::lemma_containers_are_no_leaves(name);
    let segments = ty.shape->Path_0.path.segments@;
    match segments[segments.len() - 1].arguments {
        PathArguments::AngleBracketed(args) => {
            let k = choose|k: int|
                0 <= k < args@.len() && #[trigger] args@[k] == GenericArgument::Type(inner)
                    && forall|j: int| 0 <= j < k ==> !(#[trigger] args@[j] is Type);
            lower::lemma_first_type_index(args@, k);
        },
        _ => {},
    }
}

/// A container that holds no type is named like a type of the program.
pub proof fn law_containers_of_nothing_are_defined(
    ty: Type,
    generics: Option<&Generics>,
    next: nat,
)
    requires
        is_ordinary(ty, generics),
        has_no_type(ty.shape->Path_0.path.segments@.last()),
        known_as(ty.shape->Path_0.path) == "Vec"@ || known_as(ty.shape->Path_0.path) == "Option"@
            || known_as(ty.shape->Path_0.path) == "Box"@,
    ensures
        lower::lowered(ty, generics, next) == Json::Object(
            seq![
                (
                    "defined"@,
                    Json::Object(seq![("name"@, Json::Text(known_as(ty.shape->Path_0.path)))]),
                ),
            ],
        ),
        lower::dynamic_lengths(ty, generics).len() == 0,
{
    lemma_ordinary(ty, generics);
    let name = known_as(ty.shape->Path_0.path);
    lemma_container_names(name);
    builtins::lemma_containers_are_no_leaves(name);
    let segments = ty.shape->Path_0.path.segments@;
    match segments[segments.len() - 1].arguments {
        PathArguments::AngleBracketed(args) => {
            lower::lemma_first_type_index(args@, args@.len() as int);
        },
        _ => {},
    }
}

/// A type parameter of the item stays generic.
pub proof fn law_parameters_stay_generic(ty: Type, generics: Option<&Generics>, next: nat)
    requires
        ty.shape is Path,
        names_param(ty.shape->Path_0.path, generics),
    ensures
        lower::lowered(ty, generics, next) == Json::Object(
            seq![("generic"@, Json::Text(ty.shape->Path_0.path.segments@[0].ident@))],
        ),
        lower::dynamic_lengths(ty, generics).len() == 0,
{
    let p = ty.shape->Path_0;
    let g = generics->0;
    let i = choose|i: int|
        0 <= i < g.params@.len() && (#[trigger] g.params@[i]) is Type && g.params@[i]->Type_0@
            == p.path.segments@[0].ident@;
    assert(g.params@[i] matches GenericParam::Type(n) && n@ == p.path.ident()->0);
    assert(lower::has_type_param(generics, p.path.ident()->0));
    assert(!lower::is_pod_vec(p.path));
    assert(lower::pod_vec(ty) is None);
}

/// A `PodVec<T, N>` is a type of the program with its two arguments: the type
/// of its elements and the text of its length.
pub proof fn law_pod_vecs_keep_their_arguments(ty: Type, generics: Option<&Generics>, next: nat)
    requires
        ty.shape is Path,
        names_pod_vec(ty.shape->Path_0.path),
    ensures
        ({
            let args = ty.shape->Path_0.path.segments@.last().arguments->AngleBracketed_0@;
            let element = args[0]->Type_0;
            let max = args[1]->Const_0;
            lower::lowered(ty, generics, next) == Json::Object(
                seq![
                    (
                        "defined"@,
                        Json::Object(
                            seq![
                                ("name"@, Json::Text("PodVec"@)),
                                (
                                    "generics"@,
                                    Json::List(
                                        seq![
                                            Json::Object(
                                                seq![
                                                    ("kind"@, Json::Text("type"@)),
                                                    ("type"@, element_json(element)),
                                                ],
                                            ),
                                            Json::Object(
                                                seq![
                                                    ("kind"@, Json::Text("const"@)),
                                                    (
                                                        "value"@,
                                                        Json::Text(
                                                            text::unspaced(
                                                                tokens::stream_text(max.tokens),
                                                            ),
                                                        ),
                                                    ),
                                                ],
                                            ),
                                        ],
                                    ),
                                ),
                            ],
                        ),
                    ),
                ],
            )
        }),
        lower::dynamic_lengths(ty, generics).len() == 0,
{
    let p = ty.shape->Path_0;
    let segments = p.path.segments@;
    let args = segments.last().arguments->AngleBracketed_0@;
    assert(segments[segments.len() - 1] == segments.last());
    assert(lower::is_pod_vec(p.path));
    lemma_element(args[0]->Type_0);
    match segments[segments.len() - 1].arguments {
        PathArguments::AngleBracketed(list) => match (list@[0], list@[1]) {
            (GenericArgument::Type(element), GenericArgument::Const(max)) => {
                assert(lower::pod_vec(ty) == Some(
                    lower::pod_vec_json(
                        lower::pod_element(element),
                        text::unspaced(tokens::stream_text(max.tokens)),
                    ),
                ));
            },
            _ => {},
        },
        _ => {},
    }
}

/// The element type of a `PodVec`: a wrapper, by its last identifier, stays what
/// it is, any other type is what it is outside generic items.
pub open spec fn element_json(element: Type) -> Json {
    let segments = element.shape->Path_0.path.segments@;
    if element.shape is Path && segments.len() > 0 && is_pod_name(
        builtins::normalized(segments.last().ident@),
    ) {
        Json::Object(
            seq![("defined"@, Json::Object(seq![("name"@, Json::Text(segments.last().ident@))]))],
        )
    } else {
        lower::lowered(element, None, 0)
    }
}

proof fn lemma_element(element: Type)
    ensures
        lower::pod_element(element) == element_json(element),
{
}

// ---------------------------------------------------------------------------
// Other shapes
// ---------------------------------------------------------------------------

/// A slice of bytes is `"bytes"`, any other slice a vector.
pub proof fn law_slices_are_vectors(ty: Type, generics: Option<&Generics>, next: nat)
    requires
        ty.shape is Slice,
    ensures
        ({
            let inner = *ty.shape->Slice_0;
            let bytes = inner.shape matches TypeShape::Path(p) && !p.qself && known_as(p.path)
                == "u8"@;
            if bytes {
                lower::lowered(ty, generics, next) == Json::Text("bytes"@)
                    && lower::dynamic_lengths(ty, generics).len() == 0
            } else {
                lower::lowered(ty, generics, next) == Json::Object(
                    seq![("vec"@, lower::lowered(inner, generics, next))],
                ) && lower::dynamic_lengths(ty, generics) == lower::dynamic_lengths(inner, generics)
            }
        }),
{
    assert(lower::pod_vec(ty) is None);
}

/// The expression is `inner` behind any parentheses and invisible groups, and
/// `inner` is none of these.
pub open spec fn stands_for(e: Expr, inner: Expr) -> bool
    decreases e,
{
    match e.shape {
        ExprShape::Group(next) => stands_for(*next, inner),
        ExprShape::Paren(next) => stands_for(*next, inner),
        _ => e == inner,
    }
}

proof fn lemma_stands_for(e: Expr, inner: Expr)
    ensures
        stands_for(e, inner) == (lower::peeled(e) == inner),
    decreases e,
{
    match e.shape {
        ExprShape::Group(next) => lemma_stands_for(*next, inner),
        ExprShape::Paren(next) => lemma_stands_for(*next, inner),
        _ => {},
    }
}

/// The constant parameter of the item that the expression is, if it is one.
pub open spec fn names_const_param(p: ExprPath, generics: Option<&Generics>) -> bool {
    &&& !p.qself
    &&& !p.path.leading_colon
    &&& p.path.segments@.len() == 1
    &&& p.path.segments@[0].arguments is Absent
    &&& generics is Some
    &&& exists|i: int|
        0 <= i < generics->0.params@.len() && (#[trigger] generics->0.params@[i]) is Const
            && generics->0.params@[i]->Const_0@ == p.path.segments@[0].ident@
}

proof fn lemma_const_param(p: ExprPath, generics: Option<&Generics>)
    ensures
        names_const_param(p, generics) == (p.path.ident() is Some && !p.qself
            && lower::has_const_param(generics, p.path.ident()->0)),
{
    if names_const_param(p, generics) {
        let g = generics->0;
        let i = choose|i: int|
            0 <= i < g.params@.len() && (#[trigger] g.params@[i]) is Const && g.params@[i]->Const_0@
                == p.path.segments@[0].ident@;
        assert(g.params@[i] matches GenericParam::Const(n, _) && n@ == p.path.ident()->0);
    }
    if p.path.ident() is Some && !p.qself && lower::has_const_param(generics, p.path.ident()->0) {
        let g = generics->0;
        let i = choose|i: int|
            0 <= i < g.params@.len() && (#[trigger] g.params@[i] matches GenericParam::Const(n, _)
                && n@ == p.path.ident()->0);
        assert(g.params@[i] is Const && g.params@[i]->Const_0@ == p.path.segments@[0].ident@);
    }
}

/// An array is `{"array":[inner,length]}`. A length that is a number, or a
/// constant parameter of the item, is given as such; any other is left open, the
/// next one behind those of the element type.
pub proof fn law_arrays_have_an_element_and_a_length(
    ty: Type,
    len: Expr,
    generics: Option<&Generics>,
    next: nat,
)
    requires
        ty.shape is Array,
        stands_for(*ty.shape->Array_1, len),
    ensures
        ({
            let inner = *ty.shape->Array_0;
            let before = lower::dynamic_lengths(inner, generics);
            let number = len.shape matches ExprShape::Lit(Lit::Int(digits)) && text::parsed_number(
                digits@,
                usize::MAX as nat,
            ) is Some;
            let param = len.shape matches ExprShape::Path(p) && names_const_param(p, generics);
            let length = if number {
                Json::Number(
                    text::parsed_number(
                        len.shape->Lit_0->Int_0@,
                        usize::MAX as nat,
                    )->0,
                )
            } else if param {
                Json::Object(
                    seq![("generic"@, Json::Text(len.shape->Path_0.path.segments@[0].ident@))],
                )
            } else {
                Json::Length(next + before.len())
            };
            &&& lower::lowered(ty, generics, next) == Json::Object(
                seq![("array"@, Json::List(seq![lower::lowered(inner, generics, next), length]))],
            )
            &&& lower::dynamic_lengths(ty, generics) == if number || param {
                before
            } else {
                before.push(len)
            }
        }),
{
    lemma_stands_for(*ty.shape->Array_1, len);
    match len.shape {
        ExprShape::Path(p) => lemma_const_param(p, generics),
        _ => {},
    }
    assert(lower::pod_vec(ty) is None);
}

/// Any other type, or a path without segments, is named by its source text
/// without blanks.
pub proof fn law_other_shapes_are_named_by_their_text(
    ty: Type,
    generics: Option<&Generics>,
    next: nat,
)
    requires
        ty.shape is Other || ty.shape is Path && ty.shape->Path_0.path.segments@.len() == 0,
    ensures
        lower::lowered(ty, generics, next) == Json::Object(
            seq![
                (
                    "defined"@,
                    Json::Object(
                        seq![
                            ("name"@, Json::Text(text::unspaced(tokens::stream_text(ty.tokens)))),
                        ],
                    ),
                ),
            ],
        ),
        lower::dynamic_lengths(ty, generics).len() == 0,
{
    assert(lower::pod_vec(ty) is None);
}

/// The primitive types of the IDL.
pub open spec fn is_primitive(name: Seq<char>) -> bool {
    is_number_name(name) || name == "string"@ || name == "pubkey"@ || name == "bytes"@
}

/// A type that lowers to a bare string is a primitive type of the IDL.
pub proof fn law_bare_strings_are_primitives(ty: Type, generics: Option<&Generics>, next: nat)
    ensures
        lower::lowered(ty, generics, next) matches Json::Text(name) ==> is_primitive(name),
    decreases ty,
{
    lemma_pod_vecs_are_objects(ty);
    if lower::pod_vec(ty) is None {
        match ty.shape {
            TypeShape::Reference(inner) => law_bare_strings_are_primitives(*inner, generics, next),
            TypeShape::Group(inner) => law_bare_strings_are_primitives(*inner, generics, next),
            TypeShape::Paren(inner) => law_bare_strings_are_primitives(*inner, generics, next),
            TypeShape::Path(p) => {
                let segments = p.path.segments@;
                if segments.len() > 0 {
                    match segments[segments.len() - 1].arguments {
                        PathArguments::AngleBracketed(args) => {
                            let k = lower::first_type_index(args@);
                            if 0 <= k < args@.len() && args@[k] is Type {
                                law_bare_strings_are_primitives(args@[k]->Type_0, generics, next);
                            }
                        },
                        _ => {},
                    }
                }
            },
            _ => {},
        }
    }
}

proof fn lemma_pod_vecs_are_objects(ty: Type)
    ensures
        lower::pod_vec(ty) matches Some(j) ==> j is Object,
    decreases ty,
{
    match ty.shape {
        TypeShape::Reference(inner) => lemma_pod_vecs_are_objects(*inner),
        TypeShape::Group(inner) => lemma_pod_vecs_are_objects(*inner),
        TypeShape::Paren(inner) => lemma_pod_vecs_are_objects(*inner),
        _ => {},
    }
}

// ---------------------------------------------------------------------------
// Names
// ---------------------------------------------------------------------------

/// The module paths under which the known types are found.
pub open spec fn is_known_module(module: Seq<char>) -> bool {
    module == "core::primitive::"@ || module == "std::primitive::"@ || module == "alloc::vec::"@
        || module == "std::vec::"@ || module == "alloc::string::"@ || module == "std::string::"@
        || module == "alloc::boxed::"@ || module == "std::boxed::"@ || module == "core::option::"@
        || module == "std::option::"@ || module == "solana_pubkey::"@ || module
        == "solana_program::pubkey::"@ || module == "solana_address::"@ || module
        == "pinocchio::address::"@ || module == "anchor_lang::pod::"@ || module
        == "anchor_lang::prelude::"@
}

/// A name behind a known module path is the name alone.
pub proof fn law_known_modules_are_left_out(module: Seq<char>, name: Seq<char>)
    requires
        is_known_module(module),
    ensures
        builtins::normalized(module + name) == name,
{
    let k = choose|k: int| 0 <= k < 16 && builtins::builtin_prefixes()[k] == module;
    let all = builtins::builtin_prefixes();
    assert(all[0] == "core::primitive::"@ && all[1] == "std::primitive::"@ && all[2]
        == "alloc::vec::"@ && all[3] == "std::vec::"@ && all[4] == "alloc::string::"@ && all[5]
        == "std::string::"@ && all[6] == "alloc::boxed::"@ && all[7] == "std::boxed::"@ && all[8]
        == "core::option::"@ && all[9] == "std::option::"@ && all[10] == "solana_pubkey::"@
        && all[11] == "solana_program::pubkey::"@ && all[12] == "solana_address::"@ && all[13]
        == "pinocchio::address::"@ && all[14] == "anchor_lang::pod::"@ && all[15]
        == "anchor_lang::prelude::"@);
    builtins::law_builtin_prefixes_are_stripped(k, name);
}

/// A path that starts neither with `::` nor with a known module path stays as it
/// is.
pub proof fn law_other_paths_stay_as_they_are(path: Seq<char>)
    requires
        !(path.len() >= 2 && path[0] == ':' && path[1] == ':'),
        forall|module: Seq<char>, name: Seq<char>|
            #![trigger is_known_module(module), module + name]
            is_known_module(module) ==> path != module + name,
    ensures
        builtins::normalized(path) == path,
{
    let all = builtins::builtin_prefixes();
    assert forall|k: int| 0 <= k < all.len() implies !builtins::has_prefix(
        path,
        #[trigger] all[k],
    ) by {
        assert(is_known_module(all[k]));
        if builtins::has_prefix(path, all[k]) {
            let rest = path.skip(all[k].len() as int);
            assert(path =~= all[k] + rest);
        }
    }
    lemma_nothing_stripped(path, all);
}

proof fn lemma_nothing_stripped(path: Seq<char>, prefixes: Seq<Seq<char>>)
    requires
        forall|k: int|
            0 <= k < prefixes.len() ==> !builtins::has_prefix(path, #[trigger] prefixes[k]),
    ensures
        builtins::stripped(path, prefixes) == path,
    decreases prefixes.len(),
{
    if prefixes.len() > 0 {
        let rest = prefixes.drop_first();
        assert(!builtins::has_prefix(path, prefixes[0]));
        assert forall|k: int| 0 <= k < rest.len() implies !builtins::has_prefix(
            path,
            #[trigger] rest[k],
        ) by {
            assert(rest[k] == prefixes[k + 1]);
        }
        lemma_nothing_stripped(path, rest);
    }
}

/// A path is one identifier, or the path before its last identifier, `::` and
/// that.
pub proof fn law_paths_are_joined_by_colons(segments: Seq<PathSegment>, segment: PathSegment)
    ensures
        lower::path_text(seq![segment]) == segment.ident@,
        segments.len() > 0 ==> lower::path_text(segments.push(segment)) == lower::path_text(
            segments,
        ) + seq![':', ':'] + segment.ident@,
{
    reveal_strlit("::");
    assert("::"@ =~= seq![':', ':']);
    assert(segments.push(segment).drop_last() =~= segments);
}

} // verus!
