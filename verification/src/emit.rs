//! Generated expressions for types and instruction arguments.

use crate::code::{self, Data};
use crate::definitions;
use crate::fill;
use crate::json::{self, Json};
use crate::lengths;
use crate::lower::{self, TypeLowerer};
use crate::setting::Build;
use crate::splice;
use crate::symbols;
use crate::syntax::{Expr, Type};
use crate::tokens;
use proc_macro2::TokenStream;
use serde_json::Value;
use vstd::prelude::*;
use vstd::string::*;

verus! {

/// A generated expression that contains the IDL JSON of a Rust type.
pub fn rust_type_to_idl(ty: &Type) -> (expr: TokenStream)
    ensures
        tokens::stream_tokens(expr) == splice::text_expr(
            json::json_text(lower::lowered(*ty, None, 0)),
            lower::dynamic_lengths(*ty, None),
        ),
        lengths::pod_vecs_closed(*ty, None) ==> forall|build: Build|
            code::evaluates(
                tokens::stream_tokens(expr),
                build,
                Data::Text(#[trigger] definitions::type_value(*ty, build)),
            ),
{
    proof {
        if lengths::pod_vecs_closed(*ty, None) {
            assert forall|build: Build|
                code::evaluates(
                    splice::text_expr(
                        json::json_text(lower::lowered(*ty, None, 0)),
                        lower::dynamic_lengths(*ty, None),
                    ),
                    build,
                    Data::Text(#[trigger] definitions::type_value(*ty, build)),
                ) by {
                definitions::law_type_code_evaluates_to_the_type(*ty, build);
            }
        }
    }
    let mut lowerer = TypeLowerer::default();
    let value = lowerer.lower(ty);
    proof {
        lengths::lemma_lowered_covers(*ty, None, 0);
        symbols::lemma_markers_found(
            lower::lowered(*ty, None, 0),
            lower::dynamic_lengths(*ty, None).len(),
        );
        assert(lowerer.open_lengths() =~= lower::dynamic_lengths(*ty, None));
    }
    lowerer.finish(value)
}

// ---------------------------------------------------------------------------
// Instruction arguments
// ---------------------------------------------------------------------------

/// The length expressions that lowering all the arguments leaves open.
pub open spec fn args_lengths(args: Seq<(&str, &Type)>) -> Seq<Expr>
    decreases args.len(),
{
    if args.len() == 0 {
        Seq::empty()
    } else {
        args_lengths(args.drop_last()) + lower::dynamic_lengths(*args.last().1, None)
    }
}

/// `{"name":name,"type":ty}`, `next` lengths having been left open before it.
pub open spec fn arg_json(name: Seq<char>, ty: Type, next: nat) -> Json {
    Json::Object(seq![("name"@, Json::Text(name)), ("type"@, lower::lowered(ty, None, next))])
}

/// The IDL forms of the arguments, in order, their open lengths numbered
/// through.
pub open spec fn arg_docs(args: Seq<(&str, &Type)>) -> Seq<Json>
    decreases args.len(),
{
    if args.len() == 0 {
        Seq::empty()
    } else {
        arg_docs(args.drop_last()).push(
            arg_json(args.last().0@, *args.last().1, args_lengths(args.drop_last()).len()),
        )
    }
}

proof fn lemma_arg_open(name: Seq<char>, ty: Type, next: nat)
    ensures
        lengths::open_in(arg_json(name, ty, next)) == lengths::open_in(
            lower::lowered(ty, None, next),
        ),
{
    lengths::lemma_leaf(Json::Text(name));
    symbols::lemma_object_marks(
        seq![("name"@, Json::Text(name)), ("type"@, lower::lowered(ty, None, next))],
    );
}

proof fn lemma_item_syms_push(items: Seq<Json>, item: Json)
    ensures
        symbols::item_syms(items.push(item)) == symbols::item_syms(items).push(
            symbols::flat(item),
        ),
{
    assert(items.push(item).drop_last() =~= items);
}

proof fn lemma_args_cover(args: Seq<(&str, &Type)>)
    ensures
        symbols::covers(
            symbols::all_marks(symbols::item_syms(arg_docs(args))),
            0,
            args_lengths(args).len(),
        ),
    decreases args.len(),
{
    if args.len() > 0 {
        let front = args.drop_last();
        let next = args_lengths(front).len();
        let ty = *args.last().1;
        let doc = arg_json(args.last().0@, ty, next);
        let syms = symbols::item_syms(arg_docs(front));
        lemma_args_cover(front);
        lemma_item_syms_push(arg_docs(front), doc);
        assert(syms.push(symbols::flat(doc)).drop_last() =~= syms);
        lemma_arg_open(args.last().0@, ty, next);
        lengths::lemma_lowered_covers(ty, None, next);
        symbols::lemma_covers_add(
            symbols::all_marks(syms),
            lengths::open_in(doc),
            0,
            next,
            args_lengths(args).len(),
        );
    }
}

fn arg_value<'a>(
    name: &str,
    ty: &'a Type,
    lowerer: &mut TypeLowerer<'a>,
) -> (value: Value)
    requires
        old(lowerer).generics is None,
    ensures
        json::value_text(value) == json::json_text(
            arg_json(name@, *ty, old(lowerer).open_lengths().len()),
        ),
        final(lowerer).generics is None,
        final(lowerer).open_lengths() == old(lowerer).open_lengths() + lower::dynamic_lengths(
            *ty,
            None,
        ),
{
    let ghost doc = seq![
        ("name"@, Json::Text(name@)),
        ("type"@, lower::lowered(*ty, None, lowerer.open_lengths().len())),
    ];
    let lowered = lowerer.lower(ty);
    json::object_json(vec![("name", json::text_json(name)), ("type", lowered)], Ghost(doc))
}

/// A generated expression that contains the IDL JSON of the arguments of an
/// instruction.
pub fn build_args_json(args: &[(&str, &Type)]) -> (expr: TokenStream)
    ensures
        tokens::stream_tokens(expr) == splice::text_expr(
            json::json_text(Json::List(arg_docs(args@))),
            args_lengths(args@),
        ),
        (forall|i: int|
            0 <= i < args@.len() ==> lengths::pod_vecs_closed(*(#[trigger] args@[i]).1, None))
            ==> forall|build: Build|
            code::evaluates(
                tokens::stream_tokens(expr),
                build,
                Data::Text(#[trigger] definitions::args_value(args@, build)),
            ),
{
    proof {
        if forall|i: int|
            0 <= i < args@.len() ==> lengths::pod_vecs_closed(*(#[trigger] args@[i]).1, None) {
            assert forall|build: Build|
                code::evaluates(
                    splice::text_expr(
                        json::json_text(Json::List(arg_docs(args@))),
                        args_lengths(args@),
                    ),
                    build,
                    Data::Text(#[trigger] definitions::args_value(args@, build)),
                ) by {
                definitions::law_args_code_evaluates_to_the_args(args@, build);
            }
        }
    }
    let mut lowerer = TypeLowerer::default();
    let mut values: Vec<Value> = Vec::new();
    let mut i: usize = 0;
    let ghost mut docs: Seq<Json> = Seq::empty();
    proof {
        assert(args@.take(0) =~= Seq::empty());
    }
    while i < args.len()
        invariant
            i <= args@.len(),
            lowerer.generics is None,
            lowerer.open_lengths() == args_lengths(args@.take(i as int)),
            docs == arg_docs(args@.take(i as int)),
            values@.len() == docs.len(),
            forall|k: int|
                0 <= k < docs.len() ==> #[trigger] json::value_text(values@[k]) == json::json_text(
                    docs[k],
                ),
        decreases args@.len() - i,
    {
        let ghost before = values@;
        let (name, ty) = args[i];
        let value = arg_value(name, ty, &mut lowerer);
        values.push(value);
        proof {
            let taken = args@.take(i + 1);
            assert(taken.drop_last() =~= args@.take(i as int));
            assert(taken.last() == args@[i as int]);
            let earlier = docs;
            docs = arg_docs(taken);
            assert forall|k: int| 0 <= k < docs.len() implies #[trigger] json::value_text(
                values@[k],
            ) == json::json_text(docs[k]) by {
                if k < earlier.len() {
                    assert(values@[k] == before[k]);
                    assert(json::value_text(before[k]) == json::json_text(earlier[k]));
                }
            }
        }
        i = i + 1;
    }
    proof {
        assert(args@.take(i as int) =~= args@);
        lemma_args_cover(args@);
        symbols::lemma_list_marks(docs);
        symbols::lemma_markers_found(Json::List(docs), args_lengths(args@).len());
    }
    let value = json::list_json(values, Ghost(docs));
    lowerer.finish(value)
}

// ---------------------------------------------------------------------------
// What the generated code prints
// ---------------------------------------------------------------------------

proof fn lemma_args_open(args: Seq<(&str, &Type)>)
    requires
        forall|i: int|
            0 <= i < args.len() ==> lengths::pod_vecs_closed(*(#[trigger] args[i]).1, None),
    ensures
        symbols::all_marks(symbols::item_syms(arg_docs(args))) == lengths::run(
            0,
            args_lengths(args).len(),
        ),
        fill::all_plain_keys(arg_docs(args)),
    decreases args.len(),
{
    if args.len() == 0 {
        assert(symbols::all_marks(symbols::item_syms(arg_docs(args))) =~= lengths::run(0, 0));
    } else {
        let front = args.drop_last();
        let next = args_lengths(front).len();
        let name = args.last().0@;
        let ty = *args.last().1;
        let doc = arg_json(name, ty, next);
        let syms = symbols::item_syms(arg_docs(front));
        assert forall|i: int| 0 <= i < front.len() implies lengths::pod_vecs_closed(
            *(#[trigger] front[i]).1,
            None,
        ) by {
            assert(front[i] == args[i]);
        }
        lemma_args_open(front);
        lemma_item_syms_push(arg_docs(front), doc);
        assert(syms.push(symbols::flat(doc)).drop_last() =~= syms);
        assert(arg_docs(front).push(doc).drop_last() =~= arg_docs(front));
        lemma_arg_open(name, ty, next);
        assert(args.last() == args[args.len() - 1]);
        lengths::lemma_lowered_open(ty, None, next);
        assert(symbols::all_marks(symbols::item_syms(arg_docs(args))) =~= lengths::run(
            0,
            args_lengths(args).len(),
        ));
        fill::lemma_idl_keys();
        fill::lemma_lowered_plain(ty, None, next);
        fill::lemma_plain_two(
            ("name"@, Json::Text(name)),
            ("type"@, lower::lowered(ty, None, next)),
        );
    }
}

/// The expression that is generated for the arguments of an instruction prints
/// the list of their IDL forms with the value of every length expression in its
/// place.
pub proof fn law_generated_code_prints_the_args(
    args: Seq<(&str, &Type)>,
    lengths: spec_fn(nat) -> Seq<char>,
)
    requires
        forall|i: int|
            0 <= i < args.len() ==> lengths::pod_vecs_closed(*(#[trigger] args[i]).1, None),
    ensures
        fill::printed(
            splice::length_steps(
                json::json_text(Json::List(arg_docs(args))),
                0,
                args_lengths(args).len(),
            ),
            lengths,
        ) == json::text_with(Json::List(arg_docs(args)), lengths),
{
    lemma_args_open(args);
    symbols::lemma_list_marks(arg_docs(args));
    fill::law_generated_code_prints_the_document(
        Json::List(arg_docs(args)),
        args_lengths(args).len(),
        lengths,
    );
}

} // verus!
