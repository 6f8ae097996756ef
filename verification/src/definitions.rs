//! What the generated type definitions evaluate to, and what they hold.

use crate::code::{self, Code, Data, Stmt, Vars};
use crate::emit;
use crate::fill;
use crate::joins;
use crate::json::{self, Json};
use crate::lengths;
use crate::lower;
use crate::printing;
use crate::pushes;
use crate::setting::Build;
use crate::splice::{self, Step};
use crate::surround;
use crate::syntax::{Expr, Fields, Generics, Type, Variant};
use crate::tokens::{self, Delim, Token};
use crate::typedefs::{self, CodeEntry, EntryCode, TypeKind};
use proc_macro2::TokenStream;
use vstd::prelude::*;
use vstd::string::*;

verus! {

// ---------------------------------------------------------------------------
// Documents with open lengths
// ---------------------------------------------------------------------------

spec fn step_stmt(step: Step, lengths: Seq<Expr>) -> Stmt {
    Stmt::PushStr(
        "__s"@,
        match step {
            Step::Text(s) => Code::Str(s),
            Step::Length(i) => Code::Borrow(
                Box::new(Code::UsizeText(tokens::stream_tokens(lengths[i as int].tokens))),
            ),
        },
    )
}

spec fn step_stmts(steps: Seq<Step>, lengths: Seq<Expr>) -> Seq<Stmt>
    decreases steps.len(),
{
    if steps.len() == 0 {
        Seq::empty()
    } else {
        step_stmts(steps.drop_last(), lengths).push(step_stmt(steps.last(), lengths))
    }
}

proof fn lemma_step(step: Step, lengths: Seq<Expr>, s: Seq<char>, vars: Vars, build: Build)
    requires
        code::variable(vars, "__s"@) == Data::Text(s),
    ensures
        code::stmt_tokens(step_stmt(step, lengths)) == splice::step_tokens(step, lengths),
        code::after_one(step_stmt(step, lengths), vars, build) == (
            vars.insert(
                "__s"@,
                Data::Text(s + fill::step_text(step, printing::digits(lengths, build))),
            ),
            false,
        ),
{
    match step {
        Step::Text(t) => {
            let c = Code::Str(t);
            assert(code::code_tokens(c) == seq![Token::Str(t)]);
            assert(code::value(c, vars, build) == Data::Text(t));
        },
        Step::Length(i) => {
            let ts = tokens::stream_tokens(lengths[i as int].tokens);
            let inner = Code::UsizeText(ts);
            let c = Code::Borrow(Box::new(inner));
            assert(code::value(inner, vars, build) == Data::Text((build.length)(ts)));
            assert(code::value(c, vars, build) == Data::Text((build.length)(ts)));
            let call = tokens::words("anchor_lang :: __alloc :: string :: ToString :: to_string"@)
                + tokens::group(
                Delim::Paren,
                tokens::words("&"@) + tokens::group(
                    Delim::Paren,
                    tokens::group(Delim::Paren, ts) + tokens::words("as usize"@),
                ),
            );
            assert(code::code_tokens(inner) == call);
            assert(code::code_tokens(c) == tokens::words("&"@) + call);
            assert(code::stmt_tokens(step_stmt(step, lengths)) =~= splice::step_tokens(
                step,
                lengths,
            ));
        },
    }
}

proof fn lemma_steps(steps: Seq<Step>, lengths: Seq<Expr>, vars: Vars, build: Build)
    requires
        code::variable(vars, "__s"@) == Data::Text(Seq::empty()),
    ensures
        code::stmts_tokens(step_stmts(steps, lengths)) == splice::steps_tokens(steps, lengths),
        !code::after(step_stmts(steps, lengths), vars, build).1,
        code::variable(code::after(step_stmts(steps, lengths), vars, build).0, "__s"@)
            == Data::Text(fill::printed(steps, printing::digits(lengths, build))),
    decreases steps.len(),
{
    if steps.len() > 0 {
        let front = steps.drop_last();
        let digits = printing::digits(lengths, build);
        lemma_steps(front, lengths, vars, build);
        let before = code::after(step_stmts(front, lengths), vars, build).0;
        lemma_step(steps.last(), lengths, fill::printed(front, digits), before, build);
        code::lemma_push(step_stmts(front, lengths), step_stmt(steps.last(), lengths), vars, build);
    }
}

/// The code of a document.
spec fn text_code(s: Seq<char>, lengths: Seq<Expr>) -> Code {
    if lengths.len() == 0 {
        Code::Str(s)
    } else {
        Code::Block(
            seq![Stmt::Let(true, "__s"@, None, Code::EmptyString)] + step_stmts(
                splice::length_steps(s, 0, lengths.len()),
                lengths,
            ),
            Box::new(Code::Leak("__s"@)),
        )
    }
}

proof fn lemma_leak(vars: Vars, build: Build)
    ensures
        code::code_tokens(Code::Leak("__s"@)) == pushes::leak_expr(),
        code::value(Code::Leak("__s"@), vars, build) == code::variable(vars, "__s"@),
{
}

#[verifier::rlimit(60)]
proof fn lemma_text_code(s: Seq<char>, lengths: Seq<Expr>, vars: Vars, build: Build)
    ensures
        code::code_tokens(text_code(s, lengths)) == splice::text_expr(s, lengths),
        code::value(text_code(s, lengths), vars, build) == Data::Text(
            fill::printed(
                splice::length_steps(s, 0, lengths.len()),
                printing::digits(lengths, build),
            ),
        ),
{
    let digits = printing::digits(lengths, build);
    if lengths.len() == 0 {
        fill::lemma_printed_text(s, digits);
    } else {
        let steps = splice::length_steps(s, 0, lengths.len());
        let first = Stmt::Let(true, "__s"@, None, Code::EmptyString);
        let v1 = vars.insert("__s"@, Data::Text(Seq::empty()));
        assert(code::value(Code::EmptyString, vars, build) == Data::Text(Seq::empty()));
        assert(code::code_tokens(Code::EmptyString) == tokens::words(
            "anchor_lang :: __alloc :: string :: String :: new"@,
        ) + code::unit());
        code::lemma_after_one(first, vars, build);
        code::lemma_stmts_tokens_one(first);
        lemma_steps(steps, lengths, v1, build);
        let rest = step_stmts(steps, lengths);
        code::lemma_after_add(seq![first], rest, vars, build);
        code::lemma_stmts_tokens_add(seq![first], rest);
        let all = seq![first] + rest;
        lemma_leak(code::after(all, vars, build).0, build);
        assert(code::stmt_tokens(first) =~= tokens::words("let mut"@) + tokens::words("__s"@)
            + tokens::words("="@) + tokens::words(
            "anchor_lang :: __alloc :: string :: String :: new"@,
        ) + code::unit() + tokens::words(";"@));
        assert(code::code_tokens(text_code(s, lengths)) == splice::text_expr(s, lengths));
    }
}

/// The expression that is generated for a document evaluates to its text, with
/// the value of every length expression in its place. The lengths are numbered
/// in the order in which they print; no key of the document, unless it has no
/// open length, is that of a marker.
pub proof fn law_document_code_evaluates_to_the_document(j: Json, lengths: Seq<Expr>, build: Build)
    requires
        lengths.len() == 0 || fill::plain_keys(j),
        lengths::open_in(j) == lengths::run(0, lengths.len()),
    ensures
        code::evaluates(
            splice::text_expr(json::json_text(j), lengths),
            build,
            Data::Text(
                json::text_with(
                    j,
                    |k: nat| (build.length)(tokens::stream_tokens(lengths[k as int].tokens)),
                ),
            ),
        ),
{
    lemma_text_code(json::json_text(j), lengths, Map::empty(), build);
    fill::law_generated_code_prints_the_document(
        j,
        lengths.len(),
        printing::digits(lengths, build),
    );
}

/// The text of a type, with the value of every length expression in its place.
pub open spec fn type_value(ty: Type, build: Build) -> Seq<char> {
    json::text_with(
        lower::lowered(ty, None, 0),
        |k: nat|
            (build.length)(
                tokens::stream_tokens(lower::dynamic_lengths(ty, None)[k as int].tokens),
            ),
    )
}

/// The expression that is generated for a type evaluates to its IDL form, with
/// the value of every length expression in its place.
pub proof fn law_type_code_evaluates_to_the_type(ty: Type, build: Build)
    requires
        lengths::pod_vecs_closed(ty, None),
    ensures
        code::evaluates(
            splice::text_expr(
                json::json_text(lower::lowered(ty, None, 0)),
                lower::dynamic_lengths(ty, None),
            ),
            build,
            Data::Text(
                json::text_with(
                    lower::lowered(ty, None, 0),
                    |k: nat|
                        (build.length)(
                            tokens::stream_tokens(
                                lower::dynamic_lengths(ty, None)[k as int].tokens,
                            ),
                        ),
                ),
            ),
        ),
{
    let exprs = lower::dynamic_lengths(ty, None);
    let s = json::json_text(lower::lowered(ty, None, 0));
    lemma_text_code(s, exprs, Map::empty(), build);
    fill::law_generated_code_prints_the_lowered_type(ty, None, printing::digits(exprs, build));
}

// ---------------------------------------------------------------------------
// Instruction arguments
// ---------------------------------------------------------------------------

proof fn lemma_arg_docs(args: Seq<(&str, &Type)>, i: int)
    requires
        0 <= i < args.len(),
    ensures
        emit::arg_docs(args).len() == args.len(),
        emit::arg_docs(args)[i] == emit::arg_json(
            args[i].0@,
            *args[i].1,
            emit::args_lengths(args.take(i)).len(),
        ),
    decreases args.len(),
{
    let front = args.drop_last();
    lemma_arg_docs_len(front);
    if i < front.len() {
        lemma_arg_docs(front, i);
        assert(front.take(i) =~= args.take(i));
    } else {
        assert(args.take(i) =~= front);
    }
}

proof fn lemma_arg_docs_len(args: Seq<(&str, &Type)>)
    ensures
        emit::arg_docs(args).len() == args.len(),
    decreases args.len(),
{
    if args.len() > 0 {
        lemma_arg_docs_len(args.drop_last());
    }
}

/// The arguments of an instruction are listed in order, each with its name and
/// its type. Its open lengths follow those of the arguments before it.
pub proof fn law_args_have_a_name_and_a_type(args: Seq<(&str, &Type)>, i: int)
    requires
        0 <= i < args.len(),
    ensures
        emit::arg_docs(args).len() == args.len(),
        emit::arg_docs(args)[i] == Json::Object(
            seq![
                ("name"@, Json::Text(args[i].0@)),
                (
                    "type"@,
                    lower::lowered(*args[i].1, None, emit::args_lengths(args.take(i)).len()),
                ),
            ],
        ),
        emit::args_lengths(args.take(0)).len() == 0,
        emit::args_lengths(args.take(i + 1)) == emit::args_lengths(args.take(i))
            + lower::dynamic_lengths(*args[i].1, None),
{
    lemma_arg_docs(args, i);
    assert(args.take(i + 1).drop_last() =~= args.take(i));
    assert(args.take(i + 1).last() == args[i]);
}

/// The text of the arguments of an instruction, with the value of every length
/// expression in its place.
pub open spec fn args_value(args: Seq<(&str, &Type)>, build: Build) -> Seq<char> {
    json::text_with(
        Json::List(emit::arg_docs(args)),
        |k: nat|
            (build.length)(tokens::stream_tokens(emit::args_lengths(args)[k as int].tokens)),
    )
}

/// The expression that is generated for the arguments of an instruction
/// evaluates to the list of their IDL forms.
pub proof fn law_args_code_evaluates_to_the_args(args: Seq<(&str, &Type)>, build: Build)
    requires
        forall|i: int|
            0 <= i < args.len() ==> lengths::pod_vecs_closed(*(#[trigger] args[i]).1, None),
    ensures
        code::evaluates(
            splice::text_expr(
                json::json_text(Json::List(emit::arg_docs(args))),
                emit::args_lengths(args),
            ),
            build,
            Data::Text(
                json::text_with(
                    Json::List(emit::arg_docs(args)),
                    |k: nat|
                        (build.length)(
                            tokens::stream_tokens(emit::args_lengths(args)[k as int].tokens),
                        ),
                ),
            ),
        ),
{
    let exprs = emit::args_lengths(args);
    lemma_text_code(json::json_text(Json::List(emit::arg_docs(args))), exprs, Map::empty(), build);
    emit::law_generated_code_prints_the_args(args, printing::digits(exprs, build));
}

// ---------------------------------------------------------------------------
// Joined entries
// ---------------------------------------------------------------------------

spec fn entries_type() -> Seq<Token> {
    tokens::words("anchor_lang :: __alloc :: vec :: Vec < & 'static str >"@)
}

/// `let mut __entries: .. = anchor_lang::__alloc::vec::Vec::new();`
spec fn entries_stmt() -> Stmt {
    Stmt::Let(true, "__entries"@, Some(entries_type()), Code::EmptyVec)
}

spec fn entry_code(code: EntryCode) -> Code
    decreases code,
{
    match code {
        EntryCode::Document(doc, lengths) => text_code(json::json_text(doc), lengths),
        EntryCode::Joined(prefix, entries, suffix) => Code::Block(
            join_stmts(prefix, push_stmts(entries), suffix),
            Box::new(Code::Leak("__s"@)),
        ),
    }
}

spec fn push_stmts(entries: Seq<CodeEntry>) -> Seq<Stmt>
    decreases entries,
{
    if entries.len() == 0 {
        Seq::empty()
    } else {
        push_stmts(entries.drop_last()).push(
            Stmt::PushItem(
                typedefs::all_tokens(entries.last().cfg_attrs),
                "__entries"@,
                entry_code(entries.last().code),
            ),
        )
    }
}

spec fn prefix_stmt(prefix: Seq<char>) -> Stmt {
    Stmt::Let(true, "__s"@, None, Code::From(Box::new(Code::Str(prefix))))
}

spec fn join_stmts(prefix: Seq<char>, pushes: Seq<Stmt>, suffix: Seq<char>) -> Seq<Stmt> {
    ((seq![entries_stmt()] + pushes).push(prefix_stmt(prefix)) + joins::loop_stmts(
        false,
        "__entry"@,
        "__entries"@,
    )).push(Stmt::PushStr("__s"@, Code::Str(suffix)))
}

proof fn lemma_names()
    ensures
        "__entry"@ != "__s"@,
        "__entry"@ != "__first"@,
        "__entries"@ != "__s"@,
        "__entries"@ != "__first"@,
{
    reveal_strlit("__entries");
    reveal_strlit("__s");
    reveal_strlit("__entry");
    reveal_strlit("__first");
    assert("__entries"@[2] == 'e' && "__s"@[2] == 's' && "__entry"@[2] == 'e' && "__first"@[2]
        == 'f');
}

proof fn lemma_appended_all(items: Seq<Seq<char>>)
    ensures
        joins::appended(false, items) == items,
    decreases items.len(),
{
    if items.len() > 0 {
        lemma_appended_all(items.drop_last());
        assert(joins::appended(false, items) =~= items);
    } else {
        assert(joins::appended(false, items) =~= items);
    }
}

/// The statements leave the texts in `__entries`.
spec fn entries_hold(pushes: Seq<Stmt>, texts: Seq<Seq<char>>, vars: Vars, build: Build) -> bool {
    let end = code::after(pushes, vars.insert("__entries"@, Data::List(Seq::empty())), build);
    !end.1 && code::variable(end.0, "__entries"@) == Data::List(texts)
}

#[verifier::rlimit(60)]
proof fn lemma_join_opening(
    prefix: Seq<char>,
    pushes: Seq<Stmt>,
    texts: Seq<Seq<char>>,
    vars: Vars,
    build: Build,
)
    requires
        entries_hold(pushes, texts, vars, build),
    ensures
        ({
            let opened = (seq![entries_stmt()] + pushes).push(prefix_stmt(prefix));
            let end = code::after(opened, vars, build);
            &&& code::stmts_tokens(opened) == (tokens::words("let mut"@) + tokens::words(
                "__entries"@,
            ) + tokens::words(":"@) + entries_type() + tokens::words("="@) + tokens::words(
                "anchor_lang :: __alloc :: vec :: Vec :: new"@,
            ) + code::unit() + tokens::words(";"@)) + code::stmts_tokens(pushes)
                + pushes::let_string("__s"@, prefix)
            &&& !end.1
            &&& code::variable(end.0, "__entries"@) == Data::List(texts)
            &&& code::variable(end.0, "__s"@) == Data::Text(prefix)
        }),
{
    lemma_names();
    let s1 = entries_stmt();
    let s2 = prefix_stmt(prefix);
    let v1 = vars.insert("__entries"@, Data::List(Seq::empty()));
    assert(code::value(Code::EmptyVec, vars, build) == Data::List(Seq::empty()));
    assert(code::code_tokens(Code::EmptyVec) == tokens::words(
        "anchor_lang :: __alloc :: vec :: Vec :: new"@,
    ) + code::unit());
    code::lemma_after_one(s1, vars, build);
    code::lemma_stmts_tokens_one(s1);
    code::lemma_after_add(seq![s1], pushes, vars, build);
    code::lemma_stmts_tokens_add(seq![s1], pushes);
    let v2 = code::after(seq![s1] + pushes, vars, build).0;
    let literal = Code::Str(prefix);
    let from = Code::From(Box::new(literal));
    assert(code::value(literal, v2, build) == Data::Text(prefix));
    assert(code::value(from, v2, build) == Data::Text(prefix));
    assert(code::code_tokens(literal) == seq![Token::Str(prefix)]);
    code::lemma_push(seq![s1] + pushes, s2, vars, build);
    assert(code::stmt_tokens(s2) =~= pushes::let_string("__s"@, prefix));
    assert(code::stmt_tokens(s1) =~= tokens::words("let mut"@) + tokens::words("__entries"@)
        + tokens::words(":"@) + entries_type() + tokens::words("="@) + tokens::words(
        "anchor_lang :: __alloc :: vec :: Vec :: new"@,
    ) + code::unit() + tokens::words(";"@));
}

#[verifier::rlimit(60)]
proof fn lemma_join(
    prefix: Seq<char>,
    pushes: Seq<Stmt>,
    suffix: Seq<char>,
    texts: Seq<Seq<char>>,
    vars: Vars,
    build: Build,
)
    requires
        entries_hold(pushes, texts, vars, build),
    ensures
        code::stmts_tokens(join_stmts(prefix, pushes, suffix)) == typedefs::join_stmts(
            prefix,
            code::stmts_tokens(pushes),
            suffix,
        ),
        !code::after(join_stmts(prefix, pushes, suffix), vars, build).1,
        code::variable(code::after(join_stmts(prefix, pushes, suffix), vars, build).0, "__s"@)
            == Data::Text(prefix + json::joined(texts, ',') + suffix),
{
    lemma_names();
    let opened = (seq![entries_stmt()] + pushes).push(prefix_stmt(prefix));
    lemma_join_opening(prefix, pushes, texts, vars, build);
    let v3 = code::after(opened, vars, build).0;
    let run = joins::loop_stmts(false, "__entry"@, "__entries"@);
    joins::lemma_loop(false, "__entry"@, "__entries"@, texts, prefix, v3, build);
    lemma_appended_all(texts);
    code::lemma_after_add(opened, run, vars, build);
    code::lemma_stmts_tokens_add(opened, run);
    let v4 = code::after(opened + run, vars, build).0;
    let literal = Code::Str(suffix);
    let last = Stmt::PushStr("__s"@, literal);
    assert(code::value(literal, v4, build) == Data::Text(suffix));
    assert(code::code_tokens(literal) == seq![Token::Str(suffix)]);
    code::lemma_push(opened + run, last, vars, build);
    assert(code::stmt_tokens(last) == pushes::push_text("__s"@, suffix));
    assert(code::stmts_tokens(join_stmts(prefix, pushes, suffix)) =~= typedefs::join_stmts(
        prefix,
        code::stmts_tokens(pushes),
        suffix,
    ));
}

proof fn lemma_entry_code(code: EntryCode, vars: Vars, build: Build)
    ensures
        code::code_tokens(entry_code(code)) == typedefs::entry_tokens(code),
        code::value(entry_code(code), vars, build) == Data::Text(
            printing::entry_text(code, build),
        ),
    decreases code,
{
    match code {
        EntryCode::Document(doc, lengths) => {
            lemma_text_code(json::json_text(doc), lengths, vars, build);
        },
        EntryCode::Joined(prefix, entries, suffix) => {
            let texts = printing::pushed_texts(entries, build);
            let pushes = push_stmts(entries);
            lemma_push_stmts(entries, vars, build);
            lemma_join(prefix, pushes, suffix, texts, vars, build);
            pushes::law_loop_joins_the_items(false, prefix, texts);
            let stmts = join_stmts(prefix, pushes, suffix);
            lemma_leak(code::after(stmts, vars, build).0, build);
        },
    }
}

proof fn lemma_push_stmts(entries: Seq<CodeEntry>, vars: Vars, build: Build)
    ensures
        code::stmts_tokens(push_stmts(entries)) == typedefs::pushes_tokens(entries),
        entries_hold(push_stmts(entries), printing::pushed_texts(entries, build), vars, build),
    decreases entries,
{
    let v1 = vars.insert("__entries"@, Data::List(Seq::empty()));
    if entries.len() > 0 {
        let front = entries.drop_last();
        let last = entries.last();
        let attrs = typedefs::all_tokens(last.cfg_attrs);
        let c = entry_code(last.code);
        let push = Stmt::PushItem(attrs, "__entries"@, c);
        lemma_push_stmts(front, vars, build);
        let before = code::after(push_stmts(front), v1, build).0;
        lemma_entry_code(last.code, before, build);
        code::lemma_push(push_stmts(front), push, v1, build);
        assert(code::stmt_tokens(push) == typedefs::entry_push(
            last.cfg_attrs,
            typedefs::entry_tokens(last.code),
        ));
    }
}

proof fn lemma_type_def_code(
    prefix: Seq<char>,
    entries: Seq<CodeEntry>,
    suffix: Seq<char>,
    build: Build,
)
    ensures
        code::evaluates(
            typedefs::joined_type_def_expr(prefix, typedefs::pushes_tokens(entries), suffix),
            build,
            Data::Maybe(
                Some(
                    prefix + json::joined(printing::pushed_texts(entries, build), ',') + suffix,
                ),
            ),
        ),
{
    let vars = Map::<Seq<char>, Data>::empty();
    let texts = printing::pushed_texts(entries, build);
    let pushes = push_stmts(entries);
    lemma_push_stmts(entries, vars, build);
    lemma_join(prefix, pushes, suffix, texts, vars, build);
    let stmts = join_stmts(prefix, pushes, suffix);
    let end = code::after(stmts, vars, build).0;
    lemma_leak(end, build);
    let leak = Code::Leak("__s"@);
    let some = Code::SomeOf(Box::new(leak));
    assert(code::value(some, end, build) == Data::Maybe(
        Some(prefix + json::joined(texts, ',') + suffix),
    ));
    assert(code::code_tokens(some) == tokens::words(":: core :: option :: Option :: Some"@)
        + tokens::group(Delim::Paren, pushes::leak_expr()));
    let whole = Code::Block(stmts, Box::new(some));
    assert(code::code_tokens(whole) =~= typedefs::joined_type_def_expr(
        prefix,
        typedefs::pushes_tokens(entries),
        suffix,
    ));
}

// ---------------------------------------------------------------------------
// Structs and enums
// ---------------------------------------------------------------------------

/// The texts of the fields, in order: the IDL forms of named fields, or the
/// types of the others.
pub open spec fn given_field_texts(fields: Fields, generics: Generics, build: Build) -> Seq<
    Seq<char>,
> {
    match fields {
        Fields::Named(list) => printing::field_texts(list@, true, generics, build),
        Fields::Unnamed(list) => printing::field_texts(list@, false, generics, build),
        Fields::Unit => Seq::empty(),
    }
}

/// The text of the type definition of a struct.
pub open spec fn struct_value(
    name: Seq<char>,
    lines: Seq<String>,
    kind: TypeKind,
    generics: Generics,
    fields: Fields,
    build: Build,
) -> Seq<char> {
    json::text_with(
        typedefs::type_def_json(name, lines, kind, generics, "struct"@, Json::Length(0)),
        |i: nat| json::array_text(given_field_texts(fields, generics, build)),
    )
}

/// The generated expression for a struct evaluates to the type definition whose
/// fields are those of the struct, in order.
pub proof fn law_struct_code_evaluates_to_the_definition(
    name: Seq<char>,
    lines: Seq<String>,
    kind: TypeKind,
    generics: Generics,
    fields: Fields,
    build: Build,
)
    requires
        surround::header_free(name, lines, generics),
        printing::fields_closed(fields, generics),
    ensures
        typedefs::header_parts(name, lines, kind, generics, "struct"@) matches Some(
            (prefix, suffix),
        ) && code::evaluates(
            typedefs::joined_type_def_expr(
                prefix,
                typedefs::pushes_tokens(typedefs::field_entries(fields, generics)),
                suffix,
            ),
            build,
            Data::Maybe(
                Some(
                    json::text_with(
                        typedefs::type_def_json(
                            name,
                            lines,
                            kind,
                            generics,
                            "struct"@,
                            Json::Length(0),
                        ),
                        |i: nat| json::array_text(given_field_texts(fields, generics, build)),
                    ),
                ),
            ),
        ),
{
    let entries = typedefs::field_entries(fields, generics);
    printing::law_generated_code_prints_the_struct(name, lines, kind, generics, fields, build);
    let (prefix, suffix) = typedefs::header_parts(name, lines, kind, generics, "struct"@)->0;
    lemma_type_def_code(prefix, entries, suffix, build);
    pushes::law_loop_joins_the_items(false, prefix, printing::pushed_texts(entries, build));
    let payload = json::array_text(given_field_texts(fields, generics, build));
    assert(printing::fields_text(fields, generics, build) == payload) by {
        if fields is Unit {
            assert(printing::field_texts(Seq::empty(), false, generics, build) =~= Seq::empty());
        }
    }
}

/// The text of a variant: its name and, unless it is a unit, its fields.
pub open spec fn given_variant_text(v: Variant, generics: Generics, build: Build) -> Seq<char> {
    if v.fields is Unit {
        json::object_text(seq![("name"@, json::quoted(v.ident@))])
    } else {
        json::object_text(
            seq![
                ("fields"@, json::array_text(given_field_texts(v.fields, generics, build))),
                ("name"@, json::quoted(v.ident@)),
            ],
        )
    }
}

proof fn lemma_variant_text(v: Variant, generics: Generics, build: Build)
    ensures
        printing::variant_text(v, generics, build) == given_variant_text(v, generics, build),
{
    let payload = json::array_text(given_field_texts(v.fields, generics, build));
    let named = ("name"@, json::quoted(v.ident@));
    match v.fields {
        Fields::Unit => {
            let markers = |i: nat| json::marker_text(i);
            let list = seq![("name"@, Json::Text(v.ident@))];
            json::lemma_field_texts(list, markers);
            assert(json::field_texts(list, markers) =~= seq![named]);
            assert(json::entry_insert(Seq::empty(), named.0, named.1) =~= seq![named]);
            assert(seq![named].drop_first() =~= Seq::empty());
            assert(json::inserted(seq![named], Seq::empty()) == seq![named]);
            assert(json::inserted(Seq::empty(), seq![named]) == seq![named]);
        },
        _ => {
            reveal_strlit("fields");
            reveal_strlit("name");
            let filled = |i: nat| payload;
            let list = seq![("name"@, Json::Text(v.ident@)), ("fields"@, Json::Length(0))];
            let held = ("fields"@, payload);
            json::lemma_field_texts(list, filled);
            let texts = json::field_texts(list, filled);
            assert(texts =~= seq![named, held]);
            assert("fields"@[0] == 'f' && "name"@[0] == 'n');
            assert(json::str_less("fields"@, "name"@));
            assert(json::entry_insert(Seq::empty(), named.0, named.1) =~= seq![named]);
            assert(json::entry_insert(seq![named], held.0, held.1) =~= seq![held, named]);
            assert(texts.drop_first() =~= seq![held]);
            assert(seq![held].drop_first() =~= Seq::empty());
            assert(json::inserted(seq![held, named], Seq::empty()) == seq![held, named]);
            assert(json::inserted(seq![named], seq![held]) == seq![held, named]);
            assert(json::inserted(Seq::empty(), texts) == seq![held, named]);
            assert(printing::fields_text(v.fields, generics, build) == payload);
            assert((|i: nat| printing::fields_text(v.fields, generics, build)) =~= filled);
        },
    }
}

/// The texts of the variants whose `cfg` attributes hold, in order.
pub open spec fn given_variant_texts(
    variants: Seq<Variant>,
    generics: Generics,
    build: Build,
) -> Seq<Seq<char>>
    decreases variants.len(),
{
    if variants.len() == 0 {
        Seq::empty()
    } else {
        let front = given_variant_texts(variants.drop_last(), generics, build);
        if (build.holds)(typedefs::all_tokens(variants.last().cfg_attrs@)) {
            front.push(given_variant_text(variants.last(), generics, build))
        } else {
            front
        }
    }
}

proof fn lemma_variant_texts(variants: Seq<Variant>, generics: Generics, build: Build)
    ensures
        printing::variant_texts(variants, generics, build) == given_variant_texts(
            variants,
            generics,
            build,
        ),
    decreases variants.len(),
{
    if variants.len() > 0 {
        lemma_variant_texts(variants.drop_last(), generics, build);
        lemma_variant_text(variants.last(), generics, build);
    }
}

/// The text of the type definition of an enum.
pub open spec fn enum_value(
    name: Seq<char>,
    lines: Seq<String>,
    kind: TypeKind,
    generics: Generics,
    variants: Seq<Variant>,
    build: Build,
) -> Seq<char> {
    json::text_with(
        typedefs::type_def_json(name, lines, kind, generics, "enum"@, Json::Length(0)),
        |i: nat| json::array_text(given_variant_texts(variants, generics, build)),
    )
}

/// The generated expression for an enum evaluates to the type definition whose
/// variants are those of the enum, in order.
pub proof fn law_enum_code_evaluates_to_the_definition(
    name: Seq<char>,
    lines: Seq<String>,
    kind: TypeKind,
    generics: Generics,
    variants: Seq<Variant>,
    build: Build,
)
    requires
        surround::header_free(name, lines, generics),
        forall|i: int|
            0 <= i < variants.len() ==> printing::fields_closed(
                (#[trigger] variants[i]).fields,
                generics,
            ),
    ensures
        typedefs::header_parts(name, lines, kind, generics, "enum"@) matches Some(
            (prefix, suffix),
        ) && code::evaluates(
            typedefs::joined_type_def_expr(
                prefix,
                typedefs::pushes_tokens(typedefs::variant_entries(variants, generics)),
                suffix,
            ),
            build,
            Data::Maybe(
                Some(
                    json::text_with(
                        typedefs::type_def_json(
                            name,
                            lines,
                            kind,
                            generics,
                            "enum"@,
                            Json::Length(0),
                        ),
                        |i: nat| json::array_text(given_variant_texts(variants, generics, build)),
                    ),
                ),
            ),
        ),
{
    let entries = typedefs::variant_entries(variants, generics);
    printing::law_generated_code_prints_the_enum(name, lines, kind, generics, variants, build);
    let (prefix, suffix) = typedefs::header_parts(name, lines, kind, generics, "enum"@)->0;
    lemma_type_def_code(prefix, entries, suffix, build);
    pushes::law_loop_joins_the_items(false, prefix, printing::pushed_texts(entries, build));
    lemma_variant_texts(variants, generics, build);
}

/// All attributes under which an entry is there are written before it, in order.
pub proof fn law_attributes_are_all_written(attrs: Seq<TokenStream>, attr: TokenStream)
    ensures
        typedefs::all_tokens(Seq::empty()) == Seq::<Token>::empty(),
        typedefs::all_tokens(attrs.push(attr)) == typedefs::all_tokens(attrs)
            + tokens::stream_tokens(attr),
{
    assert(attrs.push(attr).drop_last() =~= attrs);
}

} // verus!
