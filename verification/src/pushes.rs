//! Generated code that builds a string piece by piece.

use crate::json;
use crate::tokens::{self, Delim, Token};
use proc_macro2::TokenStream;
use vstd::prelude::*;
use vstd::string::*;

verus! {

/// `target.push_str(&{ expr });`
pub open spec fn push_expr(target: Seq<char>, expr: Seq<Token>) -> Seq<Token> {
    tokens::words(target) + tokens::words(". push_str"@) + tokens::group(
        Delim::Paren,
        tokens::words("&"@) + tokens::group(Delim::Brace, expr),
    ) + tokens::words(";"@)
}

/// `target.push_str("text");`
pub open spec fn push_text(target: Seq<char>, text: Seq<char>) -> Seq<Token> {
    tokens::words(target) + tokens::words(". push_str"@) + tokens::group(
        Delim::Paren,
        seq![Token::Str(text)],
    ) + tokens::words(";"@)
}

/// `target.push('c');`
pub open spec fn push_char(target: Seq<char>, c: char) -> Seq<Token> {
    tokens::words(target) + tokens::words(". push"@) + tokens::group(
        Delim::Paren,
        seq![Token::Char(c)],
    ) + tokens::words(";"@)
}

/// `let mut target = anchor_lang::__alloc::string::String::from("text");`
pub open spec fn let_string(target: Seq<char>, text: Seq<char>) -> Seq<Token> {
    tokens::words("let mut"@) + tokens::words(target) + tokens::words("="@) + tokens::words(
        "anchor_lang :: __alloc :: string :: String :: from"@,
    ) + tokens::group(Delim::Paren, seq![Token::Str(text)]) + tokens::words(";"@)
}

pub(crate) fn emit_push_expr(ts: &mut TokenStream, target: &str, expr: TokenStream)
    ensures
        tokens::stream_tokens(*final(ts)) == tokens::stream_tokens(*old(ts)) + push_expr(
            target@,
            tokens::stream_tokens(expr),
        ),
{
    let ghost before = tokens::stream_tokens(*ts);
    let mut arg = tokens::words_stream("&");
    tokens::push_group(&mut arg, Delim::Brace, expr);
    tokens::push_words(ts, target);
    tokens::push_words(ts, ". push_str");
    tokens::push_group(ts, Delim::Paren, arg);
    tokens::push_words(ts, ";");
    assert(tokens::stream_tokens(*ts) =~= before + push_expr(target@, tokens::stream_tokens(expr)));
}

pub(crate) fn emit_push_text(ts: &mut TokenStream, target: &str, text: &str)
    ensures
        tokens::stream_tokens(*final(ts)) == tokens::stream_tokens(*old(ts)) + push_text(
            target@,
            text@,
        ),
{
    let ghost before = tokens::stream_tokens(*ts);
    let mut arg = tokens::stream_new();
    tokens::push_str_literal(&mut arg, text);
    assert(tokens::stream_tokens(arg) =~= seq![Token::Str(text@)]);
    tokens::push_words(ts, target);
    tokens::push_words(ts, ". push_str");
    tokens::push_group(ts, Delim::Paren, arg);
    tokens::push_words(ts, ";");
    assert(tokens::stream_tokens(*ts) =~= before + push_text(target@, text@));
}

pub(crate) fn emit_push_char(ts: &mut TokenStream, target: &str, c: char)
    ensures
        tokens::stream_tokens(*final(ts)) == tokens::stream_tokens(*old(ts)) + push_char(
            target@,
            c,
        ),
{
    let ghost before = tokens::stream_tokens(*ts);
    let mut arg = tokens::stream_new();
    tokens::push_char_literal(&mut arg, c);
    assert(tokens::stream_tokens(arg) =~= seq![Token::Char(c)]);
    tokens::push_words(ts, target);
    tokens::push_words(ts, ". push");
    tokens::push_group(ts, Delim::Paren, arg);
    tokens::push_words(ts, ";");
    assert(tokens::stream_tokens(*ts) =~= before + push_char(target@, c));
}

pub(crate) fn emit_let_string(ts: &mut TokenStream, target: &str, text: &str)
    ensures
        tokens::stream_tokens(*final(ts)) == tokens::stream_tokens(*old(ts)) + let_string(
            target@,
            text@,
        ),
{
    let ghost before = tokens::stream_tokens(*ts);
    let mut arg = tokens::stream_new();
    tokens::push_str_literal(&mut arg, text);
    assert(tokens::stream_tokens(arg) =~= seq![Token::Str(text@)]);
    tokens::push_words(ts, "let mut");
    tokens::push_words(ts, target);
    tokens::push_words(ts, "=");
    tokens::push_words(ts, "anchor_lang :: __alloc :: string :: String :: from");
    tokens::push_group(ts, Delim::Paren, arg);
    tokens::push_words(ts, ";");
    assert(tokens::stream_tokens(*ts) =~= before + let_string(target@, text@));
}

/// What one statement appends to a string. An expression is code where the
/// statement is generated, and a text where it is evaluated.
pub enum Push<A> {
    Text(Seq<char>),
    Char(char),
    Expr(A),
}

pub open spec fn push_tokens(target: Seq<char>, push: Push<Seq<Token>>) -> Seq<Token> {
    match push {
        Push::Text(text) => push_text(target, text),
        Push::Char(c) => push_char(target, c),
        Push::Expr(expr) => push_expr(target, expr),
    }
}

pub open spec fn pushes_tokens(target: Seq<char>, pushes: Seq<Push<Seq<Token>>>) -> Seq<Token>
    decreases pushes.len(),
{
    if pushes.len() == 0 {
        Seq::empty()
    } else {
        pushes_tokens(target, pushes.drop_last()) + push_tokens(target, pushes.last())
    }
}

/// The block that evaluates to a text with more texts appended to it.
///
/// ```text
/// {
///     let mut target = anchor_lang::__alloc::string::String::from("start");
///     <pushes>
///     target
/// }
/// ```
pub open spec fn string_block(
    target: Seq<char>,
    start: Seq<char>,
    pushes: Seq<Push<Seq<Token>>>,
) -> Seq<Token> {
    tokens::group(
        Delim::Brace,
        let_string(target, start) + pushes_tokens(target, pushes) + tokens::words(target),
    )
}

pub open spec fn pushed_text(push: Push<Seq<char>>) -> Seq<char> {
    match push {
        Push::Text(text) => text,
        Push::Char(c) => seq![c],
        Push::Expr(text) => text,
    }
}

/// What [`string_block`] evaluates to.
pub open spec fn pushed(start: Seq<char>, pushes: Seq<Push<Seq<char>>>) -> Seq<char>
    decreases pushes.len(),
{
    if pushes.len() == 0 {
        start
    } else {
        pushed(start, pushes.drop_last()) + pushed_text(pushes.last())
    }
}

/// `anchor_lang::__alloc::boxed::Box::leak(__s.into_boxed_str()) as &'static str`
pub open spec fn leak_expr() -> Seq<Token> {
    tokens::words("anchor_lang :: __alloc :: boxed :: Box :: leak"@) + tokens::group(
        Delim::Paren,
        tokens::words("__s"@) + tokens::words(". into_boxed_str"@) + tokens::group(Delim::Paren, Seq::empty()),
    ) + tokens::words("as & 'static str"@)
}

pub(crate) fn emit_leak() -> (ts: TokenStream)
    ensures
        tokens::stream_tokens(ts) == leak_expr(),
{
    let mut arg = tokens::words_stream("__s");
    tokens::push_words(&mut arg, ". into_boxed_str");
    tokens::push_unit(&mut arg);
    let mut ts = tokens::words_stream("anchor_lang :: __alloc :: boxed :: Box :: leak");
    tokens::push_group(&mut ts, Delim::Paren, arg);
    tokens::push_words(&mut ts, "as & 'static str");
    ts
}

// ---------------------------------------------------------------------------
// Joining
// ---------------------------------------------------------------------------

/// One statement in the body of the loop that joins the items of a list.
pub enum JoinStep {
    /// `if item.is_empty() { continue; }`
    SkipEmpty,
    /// `if !__first { __s.push(','); }`
    Separate,
    /// `__first = false;`
    Begin,
    /// `__s.push_str(item);`
    Append,
}

/// The body of the loop, which may skip empty items.
pub open spec fn join_steps(skip_empty: bool) -> Seq<JoinStep> {
    let steps = seq![JoinStep::Separate, JoinStep::Begin, JoinStep::Append];
    if skip_empty {
        seq![JoinStep::SkipEmpty] + steps
    } else {
        steps
    }
}

pub open spec fn join_step_tokens(step: JoinStep, item: Seq<char>) -> Seq<Token> {
    match step {
        JoinStep::SkipEmpty => tokens::words("if"@) + tokens::words(item) + tokens::words(
            ". is_empty"@,
        ) + tokens::group(Delim::Paren, Seq::empty()) + tokens::group(
            Delim::Brace,
            tokens::words("continue ;"@),
        ),
        JoinStep::Separate => tokens::words("if !"@) + tokens::words(
            "__first"@,
        ) + tokens::group(
            Delim::Brace,
            push_char("__s"@, ','),
        ),
        JoinStep::Begin => tokens::words("__first"@) + tokens::words("= false ;"@),
        JoinStep::Append => tokens::words("__s"@) + tokens::words(
            ". push_str"@,
        ) + tokens::group(
            Delim::Paren,
            tokens::words(item),
        ) + tokens::words(";"@),
    }
}

pub open spec fn join_steps_tokens(steps: Seq<JoinStep>, item: Seq<char>) -> Seq<Token>
    decreases steps.len(),
{
    if steps.len() == 0 {
        Seq::empty()
    } else {
        join_steps_tokens(steps.drop_last(), item) + join_step_tokens(steps.last(), item)
    }
}

/// The loop that appends the items of a list to `__s`, commas between them.
///
/// ```text
/// let mut __first = true;
/// for item in &list { <steps> }
/// ```
pub open spec fn join_loop(skip_empty: bool, item: Seq<char>, list: Seq<char>) -> Seq<Token> {
    tokens::words("let mut"@) + tokens::words("__first"@) + tokens::words("="@) + tokens::words(
        "true"@,
    ) + tokens::words(";"@) + tokens::words("for"@) + tokens::words(item) + tokens::words("in &"@)
        + tokens::words(list) + tokens::group(
        Delim::Brace,
        join_steps_tokens(join_steps(skip_empty), item),
    )
}

fn emit_join_step(ts: &mut TokenStream, step: JoinStep, item: &str)
    ensures
        tokens::stream_tokens(*final(ts)) == tokens::stream_tokens(*old(ts)) + join_step_tokens(
            step,
            item@,
        ),
{
    let ghost before = tokens::stream_tokens(*ts);
    match step {
        JoinStep::SkipEmpty => {
            tokens::push_words(ts, "if");
            tokens::push_words(ts, item);
            tokens::push_words(ts, ". is_empty");
            tokens::push_unit(ts);
            tokens::push_group(ts, Delim::Brace, tokens::words_stream("continue ;"));
        },
        JoinStep::Separate => {
            let mut comma = tokens::stream_new();
            emit_push_char(&mut comma, "__s", ',');
            assert(tokens::stream_tokens(comma) =~= push_char("__s"@, ','));
            tokens::push_words(ts, "if !");
            tokens::push_words(ts, "__first");
            tokens::push_group(ts, Delim::Brace, comma);
        },
        JoinStep::Begin => {
            tokens::push_words(ts, "__first");
            tokens::push_words(ts, "= false ;");
        },
        JoinStep::Append => {
            tokens::push_words(ts, "__s");
            tokens::push_words(ts, ". push_str");
            tokens::push_group(ts, Delim::Paren, tokens::words_stream(item));
            tokens::push_words(ts, ";");
        },
    }
    assert(tokens::stream_tokens(*ts) =~= before + join_step_tokens(step, item@));
}

pub(crate) fn emit_join_loop(ts: &mut TokenStream, skip_empty: bool, item: &str, list: &str)
    ensures
        tokens::stream_tokens(*final(ts)) == tokens::stream_tokens(*old(ts)) + join_loop(
            skip_empty,
            item@,
            list@,
        ),
{
    let ghost before = tokens::stream_tokens(*ts);
    let mut body = tokens::stream_new();
    if skip_empty {
        emit_join_step(&mut body, JoinStep::SkipEmpty, item);
    }
    emit_join_step(&mut body, JoinStep::Separate, item);
    emit_join_step(&mut body, JoinStep::Begin, item);
    emit_join_step(&mut body, JoinStep::Append, item);
    proof {
        reveal_with_fuel(join_steps_tokens, 5);
        assert(tokens::stream_tokens(body) =~= join_steps_tokens(join_steps(skip_empty), item@));
    }
    tokens::push_words(ts, "let mut");
    tokens::push_words(ts, "__first");
    tokens::push_words(ts, "=");
    tokens::push_words(ts, "true");
    tokens::push_words(ts, ";");
    tokens::push_words(ts, "for");
    tokens::push_words(ts, item);
    tokens::push_words(ts, "in &");
    tokens::push_words(ts, list);
    tokens::push_group(ts, Delim::Brace, body);
    assert(tokens::stream_tokens(*ts) =~= before + join_loop(skip_empty, item@, list@));
}

/// The variables `__s` and `__first` of the loop.
pub struct JoinState {
    pub text: Seq<char>,
    pub first: bool,
}

/// The variables after the statements have run for an item.
pub open spec fn after_steps(steps: Seq<JoinStep>, item: Seq<char>, state: JoinState) -> JoinState
    decreases steps.len(),
{
    if steps.len() == 0 {
        state
    } else {
        let rest = steps.drop_first();
        match steps[0] {
            JoinStep::SkipEmpty => if item.len() == 0 {
                state
            } else {
                after_steps(rest, item, state)
            },
            JoinStep::Separate => if state.first {
                after_steps(rest, item, state)
            } else {
                after_steps(
                    rest,
                    item,
                    JoinState { text: state.text + seq![','], first: state.first },
                )
            },
            JoinStep::Begin => after_steps(
                rest,
                item,
                JoinState { text: state.text, first: false },
            ),
            JoinStep::Append => after_steps(
                rest,
                item,
                JoinState { text: state.text + item, first: state.first },
            ),
        }
    }
}

/// The variables after the loop has run over the items.
pub open spec fn after_items(
    steps: Seq<JoinStep>,
    items: Seq<Seq<char>>,
    state: JoinState,
) -> JoinState
    decreases items.len(),
{
    if items.len() == 0 {
        state
    } else {
        after_steps(steps, items.last(), after_items(steps, items.drop_last(), state))
    }
}

/// What `__s` holds after [`join_loop`], having held `start` before it.
pub open spec fn looped(skip_empty: bool, start: Seq<char>, items: Seq<Seq<char>>) -> Seq<char> {
    after_items(join_steps(skip_empty), items, JoinState { text: start, first: true }).text
}

/// The texts that are not empty.
pub open spec fn nonempty(texts: Seq<Seq<char>>) -> Seq<Seq<char>>
    decreases texts.len(),
{
    if texts.len() == 0 {
        Seq::empty()
    } else if texts.last().len() == 0 {
        nonempty(texts.drop_last())
    } else {
        nonempty(texts.drop_last()).push(texts.last())
    }
}

/// The items that a loop joins.
pub open spec fn joined_items(skip_empty: bool, items: Seq<Seq<char>>) -> Seq<Seq<char>> {
    if skip_empty {
        nonempty(items)
    } else {
        items
    }
}

proof fn lemma_after_steps(skip_empty: bool, item: Seq<char>, state: JoinState)
    ensures
        after_steps(join_steps(skip_empty), item, state) == if skip_empty && item.len() == 0 {
            state
        } else if state.first {
            JoinState { text: state.text + item, first: false }
        } else {
            JoinState { text: state.text + seq![','] + item, first: false }
        },
{
    let steps = seq![JoinStep::Separate, JoinStep::Begin, JoinStep::Append];
    reveal_with_fuel(after_steps, 5);
    if skip_empty {
        assert(join_steps(true).drop_first() =~= steps);
    }
}

proof fn lemma_looped(skip_empty: bool, start: Seq<char>, items: Seq<Seq<char>>)
    ensures
        after_items(join_steps(skip_empty), items, JoinState { text: start, first: true }) == (
        JoinState {
            text: start + json::joined(joined_items(skip_empty, items), ','),
            first: joined_items(skip_empty, items).len() == 0,
        }),
    decreases items.len(),
{
    let steps = join_steps(skip_empty);
    let kept = joined_items(skip_empty, items);
    let before = JoinState { text: start, first: true };
    if items.len() == 0 {
        assert(start + json::joined(kept, ',') =~= start);
    } else {
        let front = joined_items(skip_empty, items.drop_last());
        let item = items.last();
        let state = after_items(steps, items.drop_last(), before);
        lemma_looped(skip_empty, start, items.drop_last());
        lemma_after_steps(skip_empty, item, state);
        if !(skip_empty && item.len() == 0) {
            assert(kept =~= front.push(item));
            assert(kept.drop_last() =~= front);
            if front.len() == 0 {
                assert(start + json::joined(front, ',') =~= start);
                assert(json::joined(kept, ',') == item);
            } else {
                assert(state.text + seq![','] + item =~= start + json::joined(kept, ','));
            }
        }
    }
}

/// The loop appends the items one after the other, commas between them.
pub proof fn law_loop_joins_the_items(skip_empty: bool, start: Seq<char>, items: Seq<Seq<char>>)
    ensures
        looped(skip_empty, start, items) == start + json::joined(
            joined_items(skip_empty, items),
            ',',
        ),
{
    lemma_looped(skip_empty, start, items);
}

} // verus!
