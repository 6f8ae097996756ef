//! What the joining loops evaluate to.

use crate::code::{self, Code, Data, Stmt, Vars};
use crate::json;
use crate::pushes::{self, JoinState};
use crate::setting::Build;
use crate::tokens;
use vstd::prelude::*;
use vstd::string::*;

verus! {

spec fn comma_stmts() -> Seq<Stmt> {
    seq![Stmt::PushChar("__s"@, ',')]
}

/// The statements of one pass of a joining loop.
pub closed spec fn pass_stmts(skip_empty: bool, item: Seq<char>) -> Seq<Stmt> {
    let stmts = seq![
        Stmt::Unless("__first"@, comma_stmts()),
        Stmt::Clear("__first"@),
        Stmt::PushStr("__s"@, Code::Var(item)),
    ];
    if skip_empty {
        seq![Stmt::SkipEmpty(item)] + stmts
    } else {
        stmts
    }
}

/// The statements of a joining loop.
pub open spec fn loop_stmts(skip_empty: bool, item: Seq<char>, list: Seq<char>) -> Seq<Stmt> {
    seq![
        Stmt::Let(true, "__first"@, None, Code::Flag(true)),
        Stmt::For(item, list, pass_stmts(skip_empty, item)),
    ]
}

proof fn lemma_pass_tokens(skip_empty: bool, item: Seq<char>)
    ensures
        code::stmts_tokens(pass_stmts(skip_empty, item)) == pushes::join_steps_tokens(
            pushes::join_steps(skip_empty),
            item,
        ),
{
    let comma = Stmt::PushChar("__s"@, ',');
    code::lemma_stmts_tokens_one(comma);
    assert(code::stmt_tokens(comma) == pushes::push_char("__s"@, ','));
    let unless = Stmt::Unless("__first"@, comma_stmts());
    let clear = Stmt::Clear("__first"@);
    let push = Stmt::PushStr("__s"@, Code::Var(item));
    let skip = Stmt::SkipEmpty(item);
    assert(code::stmt_tokens(unless) == pushes::join_step_tokens(pushes::JoinStep::Separate, item));
    assert(code::stmt_tokens(clear) == pushes::join_step_tokens(pushes::JoinStep::Begin, item));
    assert(code::code_tokens(Code::Var(item)) == tokens::words(item));
    assert(code::stmt_tokens(push) == pushes::join_step_tokens(pushes::JoinStep::Append, item));
    assert(code::stmt_tokens(skip) == pushes::join_step_tokens(pushes::JoinStep::SkipEmpty, item));
    reveal_with_fuel(code::stmts_tokens, 5);
    reveal_with_fuel(pushes::join_steps_tokens, 5);
    if skip_empty {
        let all = pass_stmts(true, item);
        assert(all =~= seq![skip, unless, clear, push]);
        assert(pushes::join_steps(true) =~= seq![
            pushes::JoinStep::SkipEmpty,
            pushes::JoinStep::Separate,
            pushes::JoinStep::Begin,
            pushes::JoinStep::Append,
        ]);
    }
    assert(code::stmts_tokens(pass_stmts(skip_empty, item)) == pushes::join_steps_tokens(
        pushes::join_steps(skip_empty),
        item,
    ));
}

/// The variables of the loop have the values of the state.
spec fn in_state(vars: Vars, state: JoinState) -> bool {
    &&& code::variable(vars, "__s"@) == Data::Text(state.text)
    &&& code::variable(vars, "__first"@) == Data::Flag(state.first)
}

proof fn lemma_core(item: Seq<char>, text: Seq<char>, vars: Vars, state: JoinState, build: Build)
    requires
        in_state(vars, state),
        code::variable(vars, item) == Data::Text(text),
        item != "__s"@,
        item != "__first"@,
    ensures
        ({
            let end = code::after(pass_stmts(false, item), vars, build);
            &&& !end.1
            &&& in_state(
                end.0,
                if state.first {
                    JoinState { text: state.text + text, first: false }
                } else {
                    JoinState { text: state.text + seq![','] + text, first: false }
                },
            )
        }),
{
    reveal_strlit("__s");
    reveal_strlit("__first");
    assert("__s"@.len() == 3 && "__first"@.len() == 7);
    let comma = Stmt::PushChar("__s"@, ',');
    let unless = Stmt::Unless("__first"@, comma_stmts());
    let clear = Stmt::Clear("__first"@);
    let var = Code::Var(item);
    let push = Stmt::PushStr("__s"@, var);
    code::lemma_after_one(comma, vars, build);
    let v1 = code::after_one(unless, vars, build).0;
    let t1 = if state.first {
        state.text
    } else {
        state.text + seq![',']
    };
    assert(state.text.push(',') =~= state.text + seq![',']);
    assert(code::variable(v1, "__s"@) == Data::Text(t1));
    assert(code::variable(v1, item) == Data::Text(text));
    let v2 = code::after_one(clear, v1, build).0;
    assert(code::value(var, v2, build) == Data::Text(text));
    assert(code::after_one(push, v2, build) == (v2.insert("__s"@, Data::Text(t1 + text)), false));
    code::lemma_after_one(unless, vars, build);
    code::lemma_push(seq![unless], clear, vars, build);
    code::lemma_push(seq![unless].push(clear), push, vars, build);
    assert(pass_stmts(false, item) =~= seq![unless].push(clear).push(push));
}

proof fn lemma_pass(
    skip_empty: bool,
    item: Seq<char>,
    text: Seq<char>,
    vars: Vars,
    state: JoinState,
    build: Build,
)
    requires
        in_state(vars, state),
        code::variable(vars, item) == Data::Text(text),
        item != "__s"@,
        item != "__first"@,
    ensures
        in_state(
            code::after(pass_stmts(skip_empty, item), vars, build).0,
            if skip_empty && text.len() == 0 {
                state
            } else if state.first {
                JoinState { text: state.text + text, first: false }
            } else {
                JoinState { text: state.text + seq![','] + text, first: false }
            },
        ),
{
    lemma_core(item, text, vars, state, build);
    if skip_empty {
        let skip = Stmt::SkipEmpty(item);
        code::lemma_after_one(skip, vars, build);
        code::lemma_after_add(seq![skip], pass_stmts(false, item), vars, build);
        assert(pass_stmts(true, item) =~= seq![skip] + pass_stmts(false, item));
    }
}

/// The items that a loop appends.
pub open spec fn appended(skip_empty: bool, items: Seq<Seq<char>>) -> Seq<Seq<char>>
    decreases items.len(),
{
    if items.len() == 0 {
        Seq::empty()
    } else if skip_empty && items.last().len() == 0 {
        appended(skip_empty, items.drop_last())
    } else {
        appended(skip_empty, items.drop_last()).push(items.last())
    }
}

proof fn lemma_passes(
    skip_empty: bool,
    item: Seq<char>,
    items: Seq<Seq<char>>,
    start: Seq<char>,
    vars: Vars,
    build: Build,
)
    requires
        in_state(vars, JoinState { text: start, first: true }),
        item != "__s"@,
        item != "__first"@,
    ensures
        in_state(
            code::after_passes(item, items, pass_stmts(skip_empty, item), vars, build),
            JoinState {
                text: start + json::joined(appended(skip_empty, items), ','),
                first: appended(skip_empty, items).len() == 0,
            },
        ),
    decreases items.len(),
{
    let kept = appended(skip_empty, items);
    if items.len() == 0 {
        assert(start + json::joined(kept, ',') =~= start);
    } else {
        let front = appended(skip_empty, items.drop_last());
        let text = items.last();
        let state = JoinState {
            text: start + json::joined(front, ','),
            first: front.len() == 0,
        };
        lemma_passes(skip_empty, item, items.drop_last(), start, vars, build);
        let before = code::after_passes(
            item,
            items.drop_last(),
            pass_stmts(skip_empty, item),
            vars,
            build,
        );
        let bound = before.insert(item, Data::Text(text));
        assert(in_state(bound, state));
        lemma_pass(skip_empty, item, text, bound, state, build);
        if !(skip_empty && text.len() == 0) {
            assert(kept.drop_last() =~= front);
            if front.len() == 0 {
                assert(start + json::joined(front, ',') =~= start);
                assert(json::joined(kept, ',') == text);
            } else {
                assert(state.text + seq![','] + text =~= start + json::joined(kept, ','));
            }
        }
    }
}

/// The loop is written as its statements, and appends the items to `__s`,
/// commas between them.
pub proof fn lemma_loop(
    skip_empty: bool,
    item: Seq<char>,
    list: Seq<char>,
    items: Seq<Seq<char>>,
    start: Seq<char>,
    vars: Vars,
    build: Build,
)
    requires
        code::variable(vars, "__s"@) == Data::Text(start),
        code::variable(vars, list) == Data::List(items),
        item != "__s"@,
        item != "__first"@,
        list != "__first"@,
    ensures
        code::stmts_tokens(loop_stmts(skip_empty, item, list)) == pushes::join_loop(
            skip_empty,
            item,
            list,
        ),
        !code::after(loop_stmts(skip_empty, item, list), vars, build).1,
        code::variable(code::after(loop_stmts(skip_empty, item, list), vars, build).0, "__s"@)
            == Data::Text(start + json::joined(appended(skip_empty, items), ',')),
{
    reveal_strlit("__s");
    reveal_strlit("__first");
    assert("__s"@.len() == 3 && "__first"@.len() == 7);
    let all = loop_stmts(skip_empty, item, list);
    let flag = Code::Flag(true);
    let first = all[0];
    let pass = all[1];
    let v1 = vars.insert("__first"@, Data::Flag(true));
    assert(code::value(flag, vars, build) == Data::Flag(true));
    assert(code::after_one(first, vars, build) == (v1, false));
    lemma_passes(skip_empty, item, items, start, v1, build);
    code::lemma_after_one(first, vars, build);
    code::lemma_stmts_tokens_one(first);
    code::lemma_push(seq![first], pass, vars, build);
    assert(all =~= seq![first].push(pass));
    lemma_pass_tokens(skip_empty, item);
    assert(code::code_tokens(flag) == tokens::words("true"@));
    assert(code::stmts_tokens(all) =~= pushes::join_loop(skip_empty, item, list));
}

} // verus!
