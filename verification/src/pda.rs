//! The `pda` objects of accounts.

use crate::code::{self, Code, Data, Stmt, Vars};
use crate::json;
use crate::pushes::{self, Push};
use crate::seeds::{self, SeedJson, SeedListJson, SeedListView, SeedView};
use crate::setting::Build;
use crate::tokens::{self, Delim, Token};
use proc_macro2::TokenStream;
use vstd::prelude::*;
use vstd::string::*;

verus! {

/// The expression that evaluates to the JSON of a seed.
pub open spec fn seed_expr(seed: SeedView) -> Seq<Token> {
    match seed {
        SeedView::Static(s) => tokens::words("anchor_lang :: __alloc :: string :: String :: from"@)
            + tokens::group(Delim::Paren, seq![Token::Str(s)]),
        SeedView::Runtime(ts) => ts,
        SeedView::Unsupported => Seq::empty(),
    }
}

/// The seeds, each behind a separator, `value` telling what stands for a seed.
pub open spec fn seed_pushes<A>(seeds: Seq<SeedView>, value: spec_fn(SeedView) -> A) -> Seq<Push<A>>
    decreases seeds.len(),
{
    if seeds.len() == 0 {
        Seq::empty()
    } else {
        let separator = if seeds.len() == 1 {
            ""@
        } else {
            ","@
        };
        seed_pushes(seeds.drop_last(), value) + seq![
            Push::Text(separator),
            Push::Expr(value(seeds.last())),
        ]
    }
}

/// The seeds and the bracket that closes the list.
pub open spec fn seed_list_pushes<A>(seeds: Seq<SeedView>, value: spec_fn(SeedView) -> A) -> Seq<
    Push<A>,
> {
    seed_pushes(seeds, value).push(Push::Char(']'))
}

/// The block that evaluates to the JSON array of the seeds.
pub open spec fn seeds_expr(seeds: SeedListView) -> Seq<Token> {
    match seeds {
        SeedListView::Listed(list) => pushes::string_block(
            "__seeds"@,
            "["@,
            seed_list_pushes(list, |seed: SeedView| seed_expr(seed)),
        ),
        SeedListView::Runtime(ts) => tokens::group(Delim::Brace, ts),
    }
}

/// The seeds, the program where there is one, and the brace that closes the
/// object.
pub open spec fn pda_pushes<A>(seeds: A, program: Option<A>) -> Seq<Push<A>> {
    match program {
        Some(p) => seq![
            Push::Expr(seeds),
            Push::Text(",\"program\":"@),
            Push::Expr(p),
            Push::Char('}'),
        ],
        None => seq![Push::Expr(seeds), Push::Char('}')],
    }
}

/// The block that evaluates to the JSON object of a PDA.
pub open spec fn pda_expr(seeds: SeedListView, program: Option<SeedView>) -> Seq<Token> {
    pushes::string_block(
        "__pda"@,
        "{\"seeds\":"@,
        pda_pushes(
            seeds_expr(seeds),
            match program {
                Some(p) => Some(seed_expr(p)),
                None => None,
            },
        ),
    )
}

impl SeedJson {
    /// A token expression that evaluates to the JSON of the seed when the IDL
    /// is built. Unsupported seeds have none.
    pub fn into_string_expr(self) -> (ts: TokenStream)
        requires
            self@ != SeedView::Unsupported,
        ensures
            tokens::stream_tokens(ts) == seed_expr(self@),
    {
        match self {
            SeedJson::Static(s) => {
                let mut arg = tokens::stream_new();
                tokens::push_str_literal(&mut arg, s.as_str());
                assert(tokens::stream_tokens(arg) =~= seq![Token::Str(s@)]);
                let mut ts = tokens::words_stream(
                    "anchor_lang :: __alloc :: string :: String :: from",
                );
                tokens::push_group(&mut ts, Delim::Paren, arg);
                ts
            },
            SeedJson::Runtime(ts) => ts,
            SeedJson::Unsupported => tokens::stream_new(),
        }
    }
}

proof fn lemma_seed_pushes_tokens(seeds: Seq<SeedView>)
    requires
        seeds.len() > 0,
    ensures
        ({
            let code = |seed: SeedView| seed_expr(seed);
            pushes::pushes_tokens("__seeds"@, seed_pushes(seeds, code)) == pushes::pushes_tokens(
                "__seeds"@,
                seed_pushes(seeds.drop_last(), code),
            ) + pushes::push_text(
                "__seeds"@,
                if seeds.len() == 1 {
                    ""@
                } else {
                    ","@
                },
            ) + pushes::push_expr("__seeds"@, seed_expr(seeds.last()))
        }),
{
    let code = |seed: SeedView| seed_expr(seed);
    let all = seed_pushes(seeds, code);
    let front = seed_pushes(seeds.drop_last(), code);
    let separator = if seeds.len() == 1 {
        ""@
    } else {
        ","@
    };
    assert(all.drop_last().drop_last() =~= front);
    assert(all.last() == Push::Expr(seed_expr(seeds.last())));
    assert(all.drop_last().last() == Push::<Seq<Token>>::Text(separator));
    assert(pushes::pushes_tokens("__seeds"@, all.drop_last()) == pushes::pushes_tokens(
        "__seeds"@,
        front,
    ) + pushes::push_text("__seeds"@, separator));
}

fn seeds_emission(seeds: &SeedListJson) -> (ts: TokenStream)
    requires
        seeds::all_supported(seeds@),
    ensures
        tokens::stream_tokens(ts) == seeds_expr(seeds@),
{
    let mut body = tokens::stream_new();
    match seeds {
        SeedListJson::Listed(list) => {
            pushes::emit_let_string(&mut body, "__seeds", "[");
            let ghost head = pushes::let_string("__seeds"@, "["@);
            let ghost views = seeds::seed_views(list@);
            let ghost code = |seed: SeedView| seed_expr(seed);
            let mut i: usize = 0;
            proof {
                assert(views.take(0) =~= Seq::empty());
                assert(tokens::stream_tokens(body) =~= head + pushes::pushes_tokens(
                    "__seeds"@,
                    seed_pushes(views.take(0), code),
                ));
            }
            while i < list.len()
                invariant
                    i <= list@.len(),
                    views == seeds::seed_views(list@),
                    seeds@ == SeedListView::Listed(views),
                    seeds::all_supported(seeds@),
                    code == (|seed: SeedView| seed_expr(seed)),
                    tokens::stream_tokens(body) == head + pushes::pushes_tokens(
                        "__seeds"@,
                        seed_pushes(views.take(i as int), code),
                    ),
                decreases list@.len() - i,
            {
                assert(views[i as int] == list@[i as int]@);
                let expr = list[i].clone().into_string_expr();
                let comma = if i == 0 { "" } else { "," };
                pushes::emit_push_text(&mut body, "__seeds", comma);
                pushes::emit_push_expr(&mut body, "__seeds", expr);
                i = i + 1;
                proof {
                    let taken = views.take(i as int);
                    assert(taken.drop_last() =~= views.take(i - 1));
                    assert(taken.last() == views[i - 1]);
                    lemma_seed_pushes_tokens(taken);
                    assert(tokens::stream_tokens(body) =~= head + pushes::pushes_tokens(
                        "__seeds"@,
                        seed_pushes(taken, code),
                    ));
                }
            }
            pushes::emit_push_char(&mut body, "__seeds", ']');
            proof {
                assert(views.take(i as int) =~= views);
                assert(seed_list_pushes(views, code).drop_last() =~= seed_pushes(views, code));
                assert(tokens::stream_tokens(body) =~= head + pushes::pushes_tokens(
                    "__seeds"@,
                    seed_list_pushes(views, code),
                ));
            }
            tokens::push_words(&mut body, "__seeds");
        },
        SeedListJson::Runtime(other) => {
            tokens::push_stream(&mut body, other);
            assert(tokens::stream_tokens(body) =~= tokens::stream_tokens(*other));
        },
    }
    let mut ts = tokens::stream_new();
    tokens::push_group(&mut ts, Delim::Brace, body);
    assert(tokens::stream_tokens(ts) =~= seeds_expr(seeds@));
    ts
}

/// What the program that is given holds.
pub open spec fn program_view(program: Option<&SeedJson>) -> Option<SeedView> {
    match program {
        Some(p) => Some(p@),
        None => None,
    }
}

/// Assembles the `pda` object of an account from its classified seeds and the
/// program that overrides the default one. The result is a token expression
/// that evaluates to the JSON object when the IDL is built.
pub fn pda_object_emission(seeds: &SeedListJson, program: Option<&SeedJson>) -> (ts: TokenStream)
    requires
        seeds::all_supported(seeds@),
        program matches Some(p) ==> p@ != SeedView::Unsupported,
    ensures
        tokens::stream_tokens(ts) == pda_expr(
            seeds@,
            match program {
                Some(p) => Some(p@),
                None => None,
            },
        ),
        forall|build: Build|
            code::evaluates(
                tokens::stream_tokens(ts),
                build,
                Data::Text(#[trigger] pda_value(seeds@, program_view(program), build)),
            ),
{
    let mut body = tokens::stream_new();
    pushes::emit_let_string(&mut body, "__pda", "{\"seeds\":");
    pushes::emit_push_expr(&mut body, "__pda", seeds_emission(seeds));
    if let Some(p) = program {
        pushes::emit_push_text(&mut body, "__pda", ",\"program\":");
        pushes::emit_push_expr(&mut body, "__pda", p.clone().into_string_expr());
    }
    pushes::emit_push_char(&mut body, "__pda", '}');
    tokens::push_words(&mut body, "__pda");
    let mut ts = tokens::stream_new();
    tokens::push_group(&mut ts, Delim::Brace, body);
    proof {
        let held = program_view(program);
        reveal_with_fuel(pushes::pushes_tokens, 5);
        assert(tokens::stream_tokens(ts) =~= pda_expr(seeds@, held));
        assert forall|build: Build|
            code::evaluates(
                tokens::stream_tokens(ts),
                build,
                Data::Text(#[trigger] pda_value(seeds@, held, build)),
            ) by {
            law_pda_code_evaluates_to_the_object(seeds@, held, build);
        }
    }
    ts
}

// ---------------------------------------------------------------------------
// What the generated code prints
// ---------------------------------------------------------------------------

/// What the block [`seeds_expr`] evaluates to, `eval` telling what the expression
/// of a seed evaluates to.
pub open spec fn seeds_text(seeds: SeedListView, eval: spec_fn(SeedView) -> Seq<char>) -> Seq<char> {
    match seeds {
        SeedListView::Listed(list) => pushes::pushed("["@, seed_list_pushes(list, eval)),
        SeedListView::Runtime(ts) => eval(SeedView::Runtime(ts)),
    }
}

/// What the block [`pda_expr`] evaluates to.
pub open spec fn pda_text(
    seeds: SeedListView,
    program: Option<SeedView>,
    eval: spec_fn(SeedView) -> Seq<char>,
) -> Seq<char> {
    pushes::pushed(
        "{\"seeds\":"@,
        pda_pushes(
            seeds_text(seeds, eval),
            match program {
                Some(p) => Some(eval(p)),
                None => None,
            },
        ),
    )
}

pub open spec fn seed_texts(seeds: Seq<SeedView>, eval: spec_fn(SeedView) -> Seq<char>) -> Seq<
    Seq<char>,
> {
    Seq::new(seeds.len(), |i: int| eval(seeds[i]))
}

proof fn lemma_pushed_seeds(
    start: Seq<char>,
    seeds: Seq<SeedView>,
    eval: spec_fn(SeedView) -> Seq<char>,
)
    ensures
        pushes::pushed(start, seed_pushes(seeds, eval)) == start + json::joined(
            seed_texts(seeds, eval),
            ',',
        ),
    decreases seeds.len(),
{
    reveal_strlit("");
    reveal_strlit(",");
    let texts = seed_texts(seeds, eval);
    let all = seed_pushes(seeds, eval);
    if seeds.len() == 0 {
        assert(start + json::joined(texts, ',') =~= start);
    } else {
        let front = seeds.drop_last();
        lemma_pushed_seeds(start, front, eval);
        assert(seed_texts(front, eval) =~= texts.drop_last());
        assert(all.drop_last().drop_last() =~= seed_pushes(front, eval));
        assert(all.last() == Push::Expr(eval(seeds.last())));
        let before = pushes::pushed(start, seed_pushes(front, eval));
        if seeds.len() == 1 {
            assert(all.drop_last().last() == Push::<Seq<char>>::Text(""@));
            assert(json::joined(seed_texts(front, eval), ',') =~= Seq::empty());
            assert(pushes::pushed(start, all.drop_last()) =~= start);
            assert(pushes::pushed(start, all) =~= start + texts[0]);
        } else {
            assert(all.drop_last().last() == Push::<Seq<char>>::Text(","@));
            assert(","@ =~= seq![',']);
            assert(pushes::pushed(start, all.drop_last()) == before + seq![',']);
            assert(pushes::pushed(start, all) =~= start + json::joined(texts, ','));
        }
    }
}

/// The seeds of a PDA print as a JSON array, in their order.
pub proof fn law_seeds_print_in_order(seeds: Seq<SeedView>, eval: spec_fn(SeedView) -> Seq<char>)
    ensures
        seeds_text(SeedListView::Listed(seeds), eval) == json::array_text(seed_texts(seeds, eval)),
{
    reveal_strlit("[");
    lemma_pushed_seeds("["@, seeds, eval);
    assert(seed_list_pushes(seeds, eval).drop_last() =~= seed_pushes(seeds, eval));
    assert("["@ =~= seq!['[']);
}

/// A PDA prints as a JSON object with the seeds and, where there is one, the
/// program.
pub proof fn law_pda_prints_as_an_object(
    seeds: SeedListView,
    program: Option<SeedView>,
    eval: spec_fn(SeedView) -> Seq<char>,
)
    ensures
        pda_text(seeds, program, eval) == json::object_text(
            match program {
                Some(p) => seq![("seeds"@, seeds_text(seeds, eval)), ("program"@, eval(p))],
                None => seq![("seeds"@, seeds_text(seeds, eval))],
            },
        ),
{
    reveal_strlit("{\"seeds\":");
    reveal_strlit(",\"program\":");
    reveal_strlit("seeds");
    reveal_strlit("program");
    let first = ("seeds"@, seeds_text(seeds, eval));
    json::lemma_quoted_plain("seeds"@);
    json::lemma_quoted_plain("program"@);
    reveal_with_fuel(pushes::pushed, 5);
    match program {
        Some(p) => {
            let second = ("program"@, eval(p));
            let parts = json::entry_texts(seq![first, second]);
            let head = json::entry_text(first.0, first.1);
            let tail = json::entry_text(second.0, second.1);
            assert(parts.drop_last() =~= seq![head]);
            assert(parts.last() == tail);
            assert(json::joined(seq![head], ',') == head);
            assert(json::joined(parts, ',') == head + seq![','] + tail);
            assert(json::quoted("seeds"@) =~= seq!['"', 's', 'e', 'e', 'd', 's', '"']);
            assert(",\"program\":"@ =~= seq![','] + json::quoted("program"@) + seq![':']);
            assert("{\"seeds\":"@ =~= seq!['{'] + json::quoted("seeds"@) + seq![':']);
            assert(pda_text(seeds, program, eval) =~= json::object_text(seq![first, second]));
        },
        None => {
            assert(json::entry_texts(seq![first]) =~= seq![json::entry_text(first.0, first.1)]);
            assert(pda_text(seeds, program, eval) =~= json::object_text(seq![first]));
        },
    }
}

// ---------------------------------------------------------------------------
// What the tokens evaluate to
// ---------------------------------------------------------------------------

/// The JSON of a seed: what is known of it, or what its code evaluates to.
pub open spec fn seed_value(seed: SeedView, build: Build) -> Seq<char> {
    match seed {
        SeedView::Static(s) => s,
        SeedView::Runtime(ts) => (build.string)(ts),
        SeedView::Unsupported => Seq::empty(),
    }
}

/// The JSON of a list of seeds.
pub open spec fn seeds_value(seeds: SeedListView, build: Build) -> Seq<char> {
    match seeds {
        SeedListView::Listed(list) => json::array_text(
            Seq::new(list.len(), |i: int| seed_value(list[i], build)),
        ),
        SeedListView::Runtime(ts) => (build.string)(ts),
    }
}

/// The JSON of a PDA.
pub open spec fn pda_value(seeds: SeedListView, program: Option<SeedView>, build: Build) -> Seq<
    char,
> {
    json::object_text(
        match program {
            Some(p) => seq![
                ("seeds"@, seeds_value(seeds, build)),
                ("program"@, seed_value(p, build)),
            ],
            None => seq![("seeds"@, seeds_value(seeds, build))],
        },
    )
}

spec fn seed_code(seed: SeedView) -> Code {
    match seed {
        SeedView::Static(s) => Code::From(Box::new(Code::Str(s))),
        SeedView::Runtime(ts) => Code::Foreign(ts),
        SeedView::Unsupported => Code::EmptyString,
    }
}

/// `name.push_str(&{ code });`
spec fn push_block(name: Seq<char>, code: Code) -> Stmt {
    Stmt::PushStr(
        name,
        Code::Borrow(Box::new(Code::Block(Seq::empty(), Box::new(code)))),
    )
}

/// `let mut name = anchor_lang::__alloc::string::String::from("text");`
spec fn let_text(name: Seq<char>, text: Seq<char>) -> Stmt {
    Stmt::Let(true, name, None, Code::From(Box::new(Code::Str(text))))
}

proof fn lemma_push_block(name: Seq<char>, code: Code, vars: Vars, build: Build, s: Seq<char>, t: Seq<char>)
    requires
        code::variable(vars, name) == Data::Text(s),
        code::value(code, vars, build) == Data::Text(t),
    ensures
        code::stmt_tokens(push_block(name, code)) == pushes::push_expr(
            name,
            code::code_tokens(code),
        ),
        code::after_one(push_block(name, code), vars, build) == (
            vars.insert(name, Data::Text(s + t)),
            false,
        ),
{
    code::lemma_block_of(code, vars, build);
    let block = Code::Block(Seq::empty(), Box::new(code));
    assert(code::code_tokens(Code::Borrow(Box::new(block))) == tokens::words("&"@) + tokens::group(
        Delim::Brace,
        code::code_tokens(code),
    ));
    assert(code::value(Code::Borrow(Box::new(block)), vars, build) == Data::Text(t));
}

proof fn lemma_let_text(name: Seq<char>, text: Seq<char>, vars: Vars, build: Build)
    ensures
        code::stmt_tokens(let_text(name, text)) == pushes::let_string(name, text),
        code::after_one(let_text(name, text), vars, build) == (
            vars.insert(name, Data::Text(text)),
            false,
        ),
{
    let c = Code::From(Box::new(Code::Str(text)));
    assert(code::value(Code::Str(text), vars, build) == Data::Text(text));
    assert(code::value(c, vars, build) == Data::Text(text));
    assert(code::code_tokens(Code::Str(text)) == seq![Token::Str(text)]);
    assert(code::stmt_tokens(let_text(name, text)) =~= pushes::let_string(name, text));
}

/// The seeds, each behind a separator.
spec fn seed_stmts(seeds: Seq<SeedView>) -> Seq<Stmt>
    decreases seeds.len(),
{
    if seeds.len() == 0 {
        Seq::empty()
    } else {
        let separator = if seeds.len() == 1 {
            ""@
        } else {
            ","@
        };
        seed_stmts(seeds.drop_last()) + seq![
            Stmt::PushStr("__seeds"@, Code::Str(separator)),
        ] + seq![push_block("__seeds"@, seed_code(seeds.last()))]
    }
}

proof fn lemma_seed_code(seed: SeedView, vars: Vars, build: Build)
    requires
        seed != SeedView::Unsupported,
    ensures
        code::code_tokens(seed_code(seed)) == seed_expr(seed),
        code::value(seed_code(seed), vars, build) == Data::Text(seed_value(seed, build)),
{
    match seed {
        SeedView::Static(s) => {
            assert(code::code_tokens(Code::Str(s)) == seq![Token::Str(s)]);
            assert(code::value(Code::Str(s), vars, build) == Data::Text(s));
        },
        _ => {},
    }
}

proof fn lemma_seed_stmts(seeds: Seq<SeedView>, start: Seq<char>, vars: Vars, build: Build)
    requires
        forall|i: int| 0 <= i < seeds.len() ==> #[trigger] seeds[i] != SeedView::Unsupported,
        code::variable(vars, "__seeds"@) == Data::Text(start),
    ensures
        code::stmts_tokens(seed_stmts(seeds)) == pushes::pushes_tokens(
            "__seeds"@,
            seed_pushes(seeds, |seed: SeedView| seed_expr(seed)),
        ),
        !code::after(seed_stmts(seeds), vars, build).1,
        code::variable(code::after(seed_stmts(seeds), vars, build).0, "__seeds"@) == Data::Text(
            start + json::joined(
                Seq::new(seeds.len(), |i: int| seed_value(seeds[i], build)),
                ',',
            ),
        ),
    decreases seeds.len(),
{
    reveal_strlit("");
    reveal_strlit(",");
    let eval = |seed: SeedView| seed_value(seed, build);
    let texts = Seq::new(seeds.len(), |i: int| seed_value(seeds[i], build));
    if seeds.len() == 0 {
        assert(start + json::joined(texts, ',') =~= start);
    } else {
        let front = seeds.drop_last();
        let last = seeds.last();
        let separator = if seeds.len() == 1 {
            ""@
        } else {
            ","@
        };
        let comma = Stmt::PushStr("__seeds"@, Code::Str(separator));
        let seed = push_block("__seeds"@, seed_code(last));
        let front_texts = Seq::new(front.len(), |i: int| seed_value(front[i], build));
        assert forall|i: int| 0 <= i < front.len() implies #[trigger] front[i]
            != SeedView::Unsupported by {
            assert(front[i] == seeds[i]);
        }
        assert(seeds[seeds.len() - 1] != SeedView::Unsupported);
        lemma_seed_stmts(front, start, vars, build);
        assert(texts.drop_last() =~= front_texts);
        let before = code::after(seed_stmts(front), vars, build).0;
        let t0 = start + json::joined(front_texts, ',');
        let t1 = t0 + separator;
        assert(code::value(Code::Str(separator), before, build) == Data::Text(separator));
        let middle = before.insert("__seeds"@, Data::Text(t1));
        assert(code::after_one(comma, before, build) == (middle, false));
        lemma_seed_code(last, middle, build);
        lemma_push_block(
            "__seeds"@,
            seed_code(last),
            middle,
            build,
            t1,
            seed_value(last, build),
        );
        code::lemma_after_one(comma, before, build);
        code::lemma_after_one(seed, middle, build);
        code::lemma_after_add(seed_stmts(front), seq![comma], vars, build);
        code::lemma_after_add(seed_stmts(front) + seq![comma], seq![seed], vars, build);
        code::lemma_stmts_tokens_one(comma);
        code::lemma_stmts_tokens_one(seed);
        code::lemma_stmts_tokens_add(seed_stmts(front), seq![comma]);
        code::lemma_stmts_tokens_add(seed_stmts(front) + seq![comma], seq![seed]);
        lemma_seed_pushes_tokens(seeds);
        assert(code::code_tokens(Code::Str(separator)) == seq![Token::Str(separator)]);
        assert(code::stmt_tokens(comma) == pushes::push_text("__seeds"@, separator));
        if seeds.len() == 1 {
            assert(t1 + seed_value(last, build) =~= start + json::joined(texts, ','));
        } else {
            assert(","@ =~= seq![',']);
            assert(t1 + seed_value(last, build) =~= start + json::joined(texts, ','));
        }
    }
}

spec fn seeds_code(seeds: SeedListView) -> Code {
    match seeds {
        SeedListView::Listed(list) => Code::Block(
            seq![let_text("__seeds"@, "["@)] + seed_stmts(list) + seq![
                Stmt::PushChar("__seeds"@, ']'),
            ],
            Box::new(Code::Var("__seeds"@)),
        ),
        SeedListView::Runtime(ts) => Code::Block(Seq::empty(), Box::new(Code::Foreign(ts))),
    }
}

proof fn lemma_seeds_code(seeds: SeedListView, vars: Vars, build: Build)
    requires
        seeds::all_supported(seeds),
    ensures
        code::code_tokens(seeds_code(seeds)) == seeds_expr(seeds),
        code::value(seeds_code(seeds), vars, build) == Data::Text(seeds_value(seeds, build)),
{
    match seeds {
        SeedListView::Listed(list) => {
            reveal_strlit("[");
            let code = |seed: SeedView| seed_expr(seed);
            let first = let_text("__seeds"@, "["@);
            let last = Stmt::PushChar("__seeds"@, ']');
            let texts = Seq::new(list.len(), |i: int| seed_value(list[i], build));
            let opened = vars.insert("__seeds"@, Data::Text("["@));
            lemma_let_text("__seeds"@, "["@, vars, build);
            lemma_seed_stmts(list, "["@, opened, build);
            let listed = code::after(seed_stmts(list), opened, build).0;
            code::lemma_after_one(first, vars, build);
            code::lemma_after_add(seq![first], seed_stmts(list), vars, build);
            code::lemma_after_one(last, listed, build);
            code::lemma_after_add(seq![first] + seed_stmts(list), seq![last], vars, build);
            code::lemma_stmts_tokens_one(first);
            code::lemma_stmts_tokens_one(last);
            code::lemma_stmts_tokens_add(seq![first], seed_stmts(list));
            code::lemma_stmts_tokens_add(seq![first] + seed_stmts(list), seq![last]);
            assert(seed_list_pushes(list, code).drop_last() =~= seed_pushes(list, code));
            assert("["@ =~= seq!['[']);
            assert(("["@ + json::joined(texts, ',')).push(']') =~= json::array_text(texts));
            assert(code::code_tokens(Code::Var("__seeds"@)) == tokens::words("__seeds"@));
            assert(code::code_tokens(seeds_code(seeds)) =~= seeds_expr(seeds));
            let stmts = seq![first] + seed_stmts(list) + seq![last];
            let end = code::after(stmts, vars, build).0;
            assert(code::value(Code::Var("__seeds"@), end, build) == code::variable(
                end,
                "__seeds"@,
            ));
        },
        SeedListView::Runtime(ts) => {
            code::lemma_block_of(Code::Foreign(ts), vars, build);
        },
    }
}

/// The code that is generated for a PDA evaluates to a JSON object with the
/// seeds and, where there is one, the program: for each seed what is known of
/// it, or what its own code evaluates to.
#[verifier::rlimit(60)]
pub proof fn law_pda_code_evaluates_to_the_object(
    seeds: SeedListView,
    program: Option<SeedView>,
    build: Build,
)
    requires
        seeds::all_supported(seeds),
        program != Some(SeedView::Unsupported),
    ensures
        code::evaluates(
            pda_expr(seeds, program),
            build,
            Data::Text(
                json::object_text(
                    match program {
                        Some(p) => seq![
                            ("seeds"@, seeds_value(seeds, build)),
                            ("program"@, seed_value(p, build)),
                        ],
                        None => seq![("seeds"@, seeds_value(seeds, build))],
                    },
                ),
            ),
        ),
{
    let seeds_text = seeds_value(seeds, build);
    let (stmts, text) = lemma_pda_opened(seeds, build);
    lemma_pda_text(seeds_text, program, build);
    lemma_pda_expr(seeds, program);
    match program {
        Some(p) => {
            let (more, longer) = lemma_pda_program(stmts, text, p, build);
            lemma_pda_closed(more, longer, build);
            let all = more.push(Stmt::PushChar("__pda"@, '}'));
            let whole = Code::Block(all, Box::new(Code::Var("__pda"@)));
            assert(code::code_tokens(whole) == pda_expr(seeds, program));
        },
        None => {
            lemma_pda_closed(stmts, text, build);
            let all = stmts.push(Stmt::PushChar("__pda"@, '}'));
            let whole = Code::Block(all, Box::new(Code::Var("__pda"@)));
            assert(code::code_tokens(whole) == pda_expr(seeds, program));
        },
    }
}

/// The statements of the block, one after the other.
#[verifier::rlimit(60)]
proof fn lemma_pda_expr(seeds: SeedListView, program: Option<SeedView>)
    ensures
        ({
            let opened = pushes::let_string("__pda"@, "{\"seeds\":"@) + pushes::push_expr(
                "__pda"@,
                seeds_expr(seeds),
            );
            let stmts = match program {
                Some(p) => opened + pushes::push_text("__pda"@, ",\"program\":"@)
                    + pushes::push_expr("__pda"@, seed_expr(p)),
                None => opened,
            };
            pda_expr(seeds, program) == tokens::group(
                Delim::Brace,
                stmts + pushes::push_char("__pda"@, '}') + tokens::words("__pda"@),
            )
        }),
{
    let start = pushes::let_string("__pda"@, "{\"seeds\":"@);
    let a = pushes::push_expr("__pda"@, seeds_expr(seeds));
    let z = pushes::push_char("__pda"@, '}');
    reveal_with_fuel(pushes::pushes_tokens, 5);
    match program {
        Some(p) => {
            let b = pushes::push_text("__pda"@, ",\"program\":"@);
            let c = pushes::push_expr("__pda"@, seed_expr(p));
            let all = pda_pushes(seeds_expr(seeds), Some(seed_expr(p)));
            assert(pushes::pushes_tokens("__pda"@, all) =~= a + b + c + z);
            assert(start + (a + b + c + z) =~= start + a + b + c + z);
        },
        None => {
            let all = pda_pushes(seeds_expr(seeds), None);
            assert(pushes::pushes_tokens("__pda"@, all) =~= a + z);
            assert(start + (a + z) =~= start + a + z);
        },
    }
}

/// The statements leave the text in `__pda`.
spec fn pda_holds(stmts: Seq<Stmt>, text: Seq<char>, build: Build) -> bool {
    let (vars, done) = code::after(stmts, Map::empty(), build);
    !done && code::variable(vars, "__pda"@) == Data::Text(text)
}

proof fn lemma_pda_opened(seeds: SeedListView, build: Build) -> (opened: (Seq<Stmt>, Seq<char>))
    requires
        seeds::all_supported(seeds),
    ensures
        pda_holds(opened.0, opened.1, build),
        opened.1 == "{\"seeds\":"@ + seeds_value(seeds, build),
        code::stmts_tokens(opened.0) == pushes::let_string("__pda"@, "{\"seeds\":"@)
            + pushes::push_expr("__pda"@, seeds_expr(seeds)),
{
    let vars = Map::<Seq<char>, Data>::empty();
    let first = let_text("__pda"@, "{\"seeds\":"@);
    let listing = push_block("__pda"@, seeds_code(seeds));
    let seeds_text = seeds_value(seeds, build);
    let v1 = vars.insert("__pda"@, Data::Text("{\"seeds\":"@));
    lemma_let_text("__pda"@, "{\"seeds\":"@, vars, build);
    lemma_seeds_code(seeds, v1, build);
    lemma_push_block("__pda"@, seeds_code(seeds), v1, build, "{\"seeds\":"@, seeds_text);
    code::lemma_after_one(first, vars, build);
    code::lemma_stmts_tokens_one(first);
    code::lemma_push(seq![first], listing, vars, build);
    (seq![first].push(listing), "{\"seeds\":"@ + seeds_text)
}

proof fn lemma_pda_program(stmts: Seq<Stmt>, text: Seq<char>, p: SeedView, build: Build) -> (more: (
    Seq<Stmt>,
    Seq<char>,
))
    requires
        pda_holds(stmts, text, build),
        p != SeedView::Unsupported,
    ensures
        pda_holds(more.0, more.1, build),
        more.1 == text + ",\"program\":"@ + seed_value(p, build),
        code::stmts_tokens(more.0) == code::stmts_tokens(stmts) + pushes::push_text(
            "__pda"@,
            ",\"program\":"@,
        ) + pushes::push_expr("__pda"@, seed_expr(p)),
{
    let vars = Map::<Seq<char>, Data>::empty();
    let key = Code::Str(",\"program\":"@);
    let comma = Stmt::PushStr("__pda"@, key);
    let seed = push_block("__pda"@, seed_code(p));
    let v2 = code::after(stmts, vars, build).0;
    let t3 = text + ",\"program\":"@;
    let v3 = v2.insert("__pda"@, Data::Text(t3));
    assert(code::value(key, v2, build) == Data::Text(",\"program\":"@));
    assert(code::code_tokens(key) == seq![Token::Str(",\"program\":"@)]);
    assert(code::after_one(comma, v2, build) == (v3, false));
    assert(code::stmt_tokens(comma) == pushes::push_text("__pda"@, ",\"program\":"@));
    lemma_seed_code(p, v3, build);
    lemma_push_block("__pda"@, seed_code(p), v3, build, t3, seed_value(p, build));
    code::lemma_push(stmts, comma, vars, build);
    code::lemma_push(stmts.push(comma), seed, vars, build);
    (stmts.push(comma).push(seed), t3 + seed_value(p, build))
}

proof fn lemma_pda_closed(stmts: Seq<Stmt>, text: Seq<char>, build: Build)
    requires
        pda_holds(stmts, text, build),
    ensures
        ({
            let all = stmts.push(Stmt::PushChar("__pda"@, '}'));
            let whole = Code::Block(all, Box::new(Code::Var("__pda"@)));
            &&& code::code_tokens(whole) == tokens::group(
                Delim::Brace,
                code::stmts_tokens(stmts) + pushes::push_char("__pda"@, '}') + tokens::words(
                    "__pda"@,
                ),
            )
            &&& code::value(whole, Map::empty(), build) == Data::Text(text + seq!['}'])
        }),
{
    let vars = Map::<Seq<char>, Data>::empty();
    let last = Stmt::PushChar("__pda"@, '}');
    code::lemma_push(stmts, last, vars, build);
    code::lemma_block(stmts.push(last), "__pda"@, vars, build);
    assert(text.push('}') =~= text + seq!['}']);
}

proof fn lemma_pda_text(seeds_text: Seq<char>, program: Option<SeedView>, build: Build)
    ensures
        json::object_text(seq![("seeds"@, seeds_text)]) == "{\"seeds\":"@ + seeds_text + seq!['}'],
        program matches Some(p) ==> json::object_text(
            seq![("seeds"@, seeds_text), ("program"@, seed_value(p, build))],
        ) == "{\"seeds\":"@ + seeds_text + ",\"program\":"@ + seed_value(p, build) + seq!['}'],
{
    reveal_strlit("{\"seeds\":");
    reveal_strlit(",\"program\":");
    reveal_strlit("seeds");
    reveal_strlit("program");
    let first = ("seeds"@, seeds_text);
    let head = json::entry_text(first.0, first.1);
    json::lemma_quoted_plain("seeds"@);
    json::lemma_quoted_plain("program"@);
    assert("{\"seeds\":"@ =~= seq!['{'] + json::quoted("seeds"@) + seq![':']);
    assert(json::entry_texts(seq![first]) =~= seq![head]);
    assert(json::object_text(seq![first]) =~= "{\"seeds\":"@ + seeds_text + seq!['}']);
    if let Some(p) = program {
        let second = ("program"@, seed_value(p, build));
        let parts = json::entry_texts(seq![first, second]);
        let tail = json::entry_text(second.0, second.1);
        assert(parts.drop_last() =~= seq![head]);
        assert(parts.last() == tail);
        assert(json::joined(seq![head], ',') == head);
        assert(json::joined(parts, ',') == head + seq![','] + tail);
        assert(",\"program\":"@ =~= seq![','] + json::quoted("program"@) + seq![':']);
        assert(json::object_text(seq![first, second]) =~= "{\"seeds\":"@ + seeds_text
            + ",\"program\":"@ + seed_value(p, build) + seq!['}']);
    }
}

} // verus!
