//! The open lengths of lowered types.

use crate::builtins;
use crate::json::{self, Json};
use crate::lower::{self, ArrayLen};
use crate::symbols::{self, Sym};
use crate::syntax::{Expr, Generics, PathArguments, Type, TypeShape};
use vstd::prelude::*;
use vstd::string::*;

verus! {

/// `count` numbers from `start` on.
pub open spec fn run(start: nat, count: nat) -> Seq<nat> {
    Seq::new(count, |i: int| (start + i) as nat)
}

/// The numbers of a run appear in it in order.
pub proof fn lemma_run_covers(start: nat, count: nat)
    ensures
        symbols::covers(run(start, count), start, start + count),
    decreases count,
{
    if count > 0 {
        let all = run(start, count);
        lemma_run_covers(start + 1, (count - 1) as nat);
        assert(all.skip(1) =~= run(start + 1, (count - 1) as nat));
        assert(all[0] == start);
    }
}

/// The open lengths of a document, in the order in which they print.
pub open spec fn open_in(j: Json) -> Seq<nat> {
    symbols::marks(symbols::flat(j))
}

pub proof fn lemma_leaf(j: Json)
    ensures
        !(j is Length) && !(j is List) && !(j is Object) ==> open_in(j) == Seq::<nat>::empty(),
        j matches Json::Length(i) ==> open_in(j) == seq![i],
{
    match j {
        Json::True => symbols::lemma_marks_one(Sym::Text(seq!['t', 'r', 'u', 'e'])),
        Json::Number(n) => symbols::lemma_marks_one(Sym::Text(json::decimal(n))),
        Json::Text(s) => symbols::lemma_marks_one(Sym::Text(json::quoted(s))),
        Json::Length(i) => symbols::lemma_marks_one(Sym::Length(i)),
        _ => {},
    }
}

pub proof fn lemma_single_field(key: Seq<char>, j: Json)
    ensures
        open_in(Json::Object(seq![(key, j)])) == open_in(j),
{
    symbols::lemma_object_marks(seq![(key, j)]);
}

pub proof fn lemma_defined(name: Seq<char>)
    ensures
        open_in(lower::defined(name)) == Seq::<nat>::empty(),
{
    lemma_leaf(Json::Text(name));
    lemma_single_field("name"@, Json::Text(name));
    lemma_single_field("defined"@, Json::Object(seq![("name"@, Json::Text(name))]));
}

pub proof fn lemma_generic(name: Seq<char>)
    ensures
        open_in(lower::generic(name)) == Seq::<nat>::empty(),
{
    lemma_leaf(Json::Text(name));
    lemma_single_field("generic"@, Json::Text(name));
}

proof fn lemma_len(e: Expr, generics: Option<&Generics>, next: nat)
    ensures
        open_in(lower::len_json(e, generics, next)) == (match lower::array_len(e, generics) {
            ArrayLen::Dynamic(_) => seq![next],
            _ => Seq::<nat>::empty(),
        }),
{
    match lower::array_len(e, generics) {
        ArrayLen::Number(n) => lemma_leaf(Json::Number(n)),
        ArrayLen::Param(name) => lemma_generic(name),
        ArrayLen::Dynamic(_) => lemma_leaf(Json::Length(next)),
    }
}

proof fn lemma_array(inner: Json, len: Json)
    ensures
        open_in(Json::Object(seq![("array"@, Json::List(seq![inner, len]))])) == open_in(inner)
            + open_in(len),
{
    symbols::lemma_pair_marks(inner, len);
    lemma_single_field("array"@, Json::List(seq![inner, len]));
}

/// The lengths that lowering a type leaves open are all in its IDL form, in
/// order, numbered from `next` on. There may be others beside them.
pub proof fn lemma_lowered_covers(ty: Type, generics: Option<&Generics>, next: nat)
    ensures
        symbols::covers(
            open_in(lower::lowered(ty, generics, next)),
            next,
            next + lower::dynamic_lengths(ty, generics).len(),
        ),
    decreases ty,
{
    if lower::pod_vec(ty) is None {
        match ty.shape {
            TypeShape::Reference(inner) => lemma_lowered_covers(*inner, generics, next),
            TypeShape::Group(inner) => lemma_lowered_covers(*inner, generics, next),
            TypeShape::Paren(inner) => lemma_lowered_covers(*inner, generics, next),
            TypeShape::Slice(inner) => {
                if !lower::is_u8(*inner) {
                    lemma_lowered_covers(*inner, generics, next);
                    lemma_single_field("vec"@, lower::lowered(*inner, generics, next));
                }
            },
            TypeShape::Array(inner, len) => {
                let inner_doc = lower::lowered(*inner, generics, next);
                let count = lower::dynamic_lengths(*inner, generics).len();
                let len_doc = lower::len_json(*len, generics, next + count);
                lemma_lowered_covers(*inner, generics, next);
                lemma_len(*len, generics, next + count);
                lemma_array(inner_doc, len_doc);
                match lower::array_len(*len, generics) {
                    ArrayLen::Dynamic(_) => {
                        assert(symbols::covers(
                            seq![(next + count) as nat],
                            next + count,
                            next + count + 1,
                        )) by {
                            reveal_with_fuel(symbols::covers, 2);
                            assert(seq![(next + count) as nat][0] == next + count);
                        }
                        symbols::lemma_covers_add(
                            open_in(inner_doc),
                            open_in(len_doc),
                            next,
                            next + count,
                            next + count + 1,
                        );
                    },
                    _ => {
                        assert(open_in(inner_doc) + open_in(len_doc) =~= open_in(inner_doc));
                    },
                }
            },
            TypeShape::Path(p) => {
                let segments = p.path.segments@;
                let path = builtins::normalized(lower::path_text(segments));
                builtins::lemma_containers_are_no_leaves(path);
                if segments.len() > 0 && !(p.path.ident() is Some && lower::has_type_param(
                    generics,
                    p.path.ident()->0,
                )) && builtins::is_container(path) {
                    match segments[segments.len() - 1].arguments {
                        PathArguments::AngleBracketed(args) => {
                            let k = lower::first_type_index(args@);
                            if 0 <= k < args@.len() && args@[k] is Type {
                                let inner = args@[k]->Type_0;
                                let doc = lower::lowered(inner, generics, next);
                                lemma_lowered_covers(inner, generics, next);
                                lemma_single_field("vec"@, doc);
                                lemma_single_field("option"@, doc);
                            }
                        },
                        _ => {},
                    }
                }
            },
            TypeShape::Other => {},
        }
    }
}

/// No `PodVec` that is met when the type is lowered holds an open length.
pub open spec fn pod_vecs_closed(ty: Type, generics: Option<&Generics>) -> bool
    decreases ty,
{
    match lower::pod_vec(ty) {
        Some(j) => open_in(j).len() == 0,
        None => match ty.shape {
            TypeShape::Reference(inner) => pod_vecs_closed(*inner, generics),
            TypeShape::Group(inner) => pod_vecs_closed(*inner, generics),
            TypeShape::Paren(inner) => pod_vecs_closed(*inner, generics),
            TypeShape::Slice(inner) => lower::is_u8(*inner) || pod_vecs_closed(*inner, generics),
            TypeShape::Array(inner, _) => pod_vecs_closed(*inner, generics),
            TypeShape::Path(p) => {
                let segments = p.path.segments@;
                let path = builtins::normalized(lower::path_text(segments));
                if segments.len() > 0 && !(p.path.ident() is Some && lower::has_type_param(
                    generics,
                    p.path.ident()->0,
                )) && builtins::is_container(path) {
                    match segments[segments.len() - 1].arguments {
                        PathArguments::AngleBracketed(args) => {
                            let k = lower::first_type_index(args@);
                            if 0 <= k < args@.len() && args@[k] is Type {
                                pod_vecs_closed(args@[k]->Type_0, generics)
                            } else {
                                true
                            }
                        },
                        _ => true,
                    }
                } else {
                    true
                }
            },
            TypeShape::Other => true,
        },
    }
}

/// The open lengths of a lowered type are exactly those that lowering it
/// leaves open, numbered from `next` on.
pub proof fn lemma_lowered_open(ty: Type, generics: Option<&Generics>, next: nat)
    requires
        pod_vecs_closed(ty, generics),
    ensures
        open_in(lower::lowered(ty, generics, next)) == run(
            next,
            lower::dynamic_lengths(ty, generics).len(),
        ),
    decreases ty,
{
    let doc = lower::lowered(ty, generics, next);
    let count = lower::dynamic_lengths(ty, generics).len();
    if lower::pod_vec(ty) is Some {
        assert(open_in(doc) =~= run(next, count));
    } else {
        match ty.shape {
            TypeShape::Reference(inner) => lemma_lowered_open(*inner, generics, next),
            TypeShape::Group(inner) => lemma_lowered_open(*inner, generics, next),
            TypeShape::Paren(inner) => lemma_lowered_open(*inner, generics, next),
            TypeShape::Slice(inner) => {
                if !lower::is_u8(*inner) {
                    lemma_lowered_open(*inner, generics, next);
                    lemma_single_field("vec"@, lower::lowered(*inner, generics, next));
                } else {
                    lemma_leaf(doc);
                    assert(open_in(doc) =~= run(next, count));
                }
            },
            TypeShape::Array(inner, len) => {
                let inner_doc = lower::lowered(*inner, generics, next);
                let inner_count = lower::dynamic_lengths(*inner, generics).len();
                let len_doc = lower::len_json(*len, generics, next + inner_count);
                lemma_lowered_open(*inner, generics, next);
                lemma_len(*len, generics, next + inner_count);
                lemma_array(inner_doc, len_doc);
                assert(open_in(doc) =~= run(next, count));
            },
            TypeShape::Path(p) => {
                let segments = p.path.segments@;
                let path = builtins::normalized(lower::path_text(segments));
                builtins::lemma_containers_are_no_leaves(path);
                let printed = crate::text::unspaced(crate::tokens::stream_text(ty.tokens));
                lemma_defined(printed);
                if segments.len() > 0 {
                    lemma_defined(path);
                    lemma_defined(segments.last().ident@);
                    if p.path.ident() is Some {
                        lemma_generic(p.path.ident()->0);
                    }
                    if doc is Text {
                        lemma_leaf(doc);
                    }
                    match segments[segments.len() - 1].arguments {
                        PathArguments::AngleBracketed(args) => {
                            let k = lower::first_type_index(args@);
                            if builtins::is_container(path) && 0 <= k < args@.len() && args@[k]
                                is Type && !(p.path.ident() is Some && lower::has_type_param(
                                generics,
                                p.path.ident()->0,
                            )) {
                                let inner = args@[k]->Type_0;
                                let inner_doc = lower::lowered(inner, generics, next);
                                lemma_lowered_open(inner, generics, next);
                                lemma_single_field("vec"@, inner_doc);
                                lemma_single_field("option"@, inner_doc);
                            }
                        },
                        _ => {},
                    }
                }
                assert(open_in(doc) =~= run(next, count));
            },
            TypeShape::Other => {
                lemma_defined(crate::text::unspaced(crate::tokens::stream_text(ty.tokens)));
                assert(open_in(doc) =~= run(next, count));
            },
        }
    }
}

} // verus!
