//! Generated expressions that print JSON with the open lengths filled in.
//!
//! A document whose lengths are all known becomes a string literal. For any
//! other one the code that is generated pushes the text between the markers
//! and the values of the length expressions one after the other.

use crate::json;
use crate::lower::TypeLowerer;
use crate::pushes;
use crate::syntax::Expr;
use crate::text;
use crate::tokens::{self, Delim, Token};
use proc_macro2::TokenStream;
use serde_json::Value;
use vstd::prelude::*;
use vstd::string::*;

verus! {

/// What one statement of the generated code pushes.
pub enum Step {
    /// A fixed text.
    Text(Seq<char>),
    /// The decimal digits of the value of a length expression.
    Length(nat),
}

/// The markers of the lengths `i`, `i + 1` up to `n` are found one behind the
/// other.
pub open spec fn markers_found(s: Seq<char>, i: nat, n: nat) -> bool
    decreases n - i,
{
    i >= n || match text::spec_split_once(s, json::marker_text(i)) {
        Some((_, after)) => markers_found(after, i + 1, n),
        None => false,
    }
}

pub open spec fn text_step(s: Seq<char>) -> Seq<Step> {
    if s.len() == 0 {
        Seq::empty()
    } else {
        seq![Step::Text(s)]
    }
}

/// The steps that print `s` with the markers `i`, `i + 1` up to `n` replaced.
pub open spec fn length_steps(s: Seq<char>, i: nat, n: nat) -> Seq<Step>
    decreases n - i,
{
    if i >= n {
        text_step(s)
    } else {
        match text::spec_split_once(s, json::marker_text(i)) {
            Some((before, after)) => text_step(before) + seq![Step::Length(i)] + length_steps(
                after,
                i + 1,
                n,
            ),
            None => text_step(s),
        }
    }
}

/// `__s.push_str("..");` or
/// `__s.push_str(&anchor_lang::__alloc::string::ToString::to_string(&((len) as usize)));`
pub open spec fn step_tokens(step: Step, lengths: Seq<Expr>) -> Seq<Token> {
    let arg = match step {
        Step::Text(s) => seq![Token::Str(s)],
        Step::Length(i) => tokens::words("&"@) + tokens::words(
            "anchor_lang :: __alloc :: string :: ToString :: to_string"@,
        ) + tokens::group(
            Delim::Paren,
            tokens::words("&"@) + tokens::group(
                Delim::Paren,
                tokens::group(Delim::Paren, tokens::stream_tokens(lengths[i as int].tokens))
                    + tokens::words("as usize"@),
            ),
        ),
    };
    tokens::words("__s"@) + tokens::words(". push_str"@) + tokens::group(Delim::Paren, arg) + tokens::words(";"@)
}

pub open spec fn steps_tokens(steps: Seq<Step>, lengths: Seq<Expr>) -> Seq<Token>
    decreases steps.len(),
{
    if steps.len() == 0 {
        Seq::empty()
    } else {
        steps_tokens(steps.drop_last(), lengths) + step_tokens(steps.last(), lengths)
    }
}

/// The expression that evaluates to the text `s` with its markers replaced by
/// the values of `lengths`.
///
/// ```text
/// {
///     let mut __s = anchor_lang::__alloc::string::String::new();
///     <steps>
///     anchor_lang::__alloc::boxed::Box::leak(__s.into_boxed_str()) as &'static str
/// }
/// ```
pub open spec fn text_expr(s: Seq<char>, lengths: Seq<Expr>) -> Seq<Token> {
    if lengths.len() == 0 {
        seq![Token::Str(s)]
    } else {
        tokens::group(
            Delim::Brace,
            tokens::words("let mut"@) + tokens::words("__s"@) + tokens::words("="@) + tokens::words(
                "anchor_lang :: __alloc :: string :: String :: new"@,
            ) + tokens::group(Delim::Paren, Seq::empty()) + tokens::words(";"@) + steps_tokens(
                length_steps(s, 0, lengths.len()),
                lengths,
            ) + pushes::leak_expr(),
        )
    }
}

// ---------------------------------------------------------------------------
// Emission
// ---------------------------------------------------------------------------

proof fn lemma_steps_tokens_push(steps: Seq<Step>, step: Step, lengths: Seq<Expr>)
    ensures
        steps_tokens(steps.push(step), lengths) == steps_tokens(steps, lengths) + step_tokens(
            step,
            lengths,
        ),
{
    assert(steps.push(step).drop_last() =~= steps);
}

fn push_text_step(ts: &mut TokenStream, s: &str, Ghost(lengths): Ghost<Seq<Expr>>)
    ensures
        tokens::stream_tokens(*final(ts)) == tokens::stream_tokens(*old(ts)) + step_tokens(
            Step::Text(s@),
            lengths,
        ),
{
    let ghost before = tokens::stream_tokens(*ts);
    let mut arg = tokens::stream_new();
    tokens::push_str_literal(&mut arg, s);
    tokens::push_words(ts, "__s");
    tokens::push_words(ts, ". push_str");
    tokens::push_group(ts, Delim::Paren, arg);
    tokens::push_words(ts, ";");
    proof {
        assert(tokens::stream_tokens(arg) =~= seq![Token::Str(s@)]);
        assert(tokens::stream_tokens(*ts) =~= before + step_tokens(Step::Text(s@), lengths));
    }
}

fn push_length_step(ts: &mut TokenStream, lengths: &Vec<&Expr>, i: usize, Ghost(exprs): Ghost<Seq<Expr>>)
    requires
        i < lengths@.len(),
        exprs.len() == lengths@.len(),
        exprs[i as int] == *lengths@[i as int],
    ensures
        tokens::stream_tokens(*final(ts)) == tokens::stream_tokens(*old(ts)) + step_tokens(
            Step::Length(i as nat),
            exprs,
        ),
{
    let ghost before = tokens::stream_tokens(*ts);
    let mut expr = tokens::stream_new();
    tokens::push_stream(&mut expr, &lengths[i].tokens);
    assert(tokens::stream_tokens(expr) =~= tokens::stream_tokens(exprs[i as int].tokens));
    let mut cast = tokens::stream_new();
    tokens::push_group(&mut cast, Delim::Paren, expr);
    tokens::push_words(&mut cast, "as usize");
    assert(tokens::stream_tokens(cast) =~= tokens::group(
        Delim::Paren,
        tokens::stream_tokens(exprs[i as int].tokens),
    ) + tokens::words("as usize"@));
    let mut value = tokens::words_stream("&");
    tokens::push_group(&mut value, Delim::Paren, cast);
    let mut arg = tokens::words_stream("&");
    tokens::push_words(&mut arg, "anchor_lang :: __alloc :: string :: ToString :: to_string");
    tokens::push_group(&mut arg, Delim::Paren, value);
    tokens::push_words(ts, "__s");
    tokens::push_words(ts, ". push_str");
    tokens::push_group(ts, Delim::Paren, arg);
    tokens::push_words(ts, ";");
    assert(tokens::stream_tokens(*ts) =~= before + step_tokens(Step::Length(i as nat), exprs));
}

impl<'a> TypeLowerer<'a> {
    /// The generated expression for a lowered document: its text, the lengths
    /// left open being filled in when the IDL is built.
    pub fn finish(self, value: Value) -> (expr: TokenStream)
        requires
            markers_found(json::value_text(value), 0, self.open_lengths().len()),
        ensures
            tokens::stream_tokens(expr) == text_expr(
                json::value_text(value),
                self.open_lengths(),
            ),
    {
        let ghost lengths = self.open_lengths();
        let printed = json::value_to_string(&value);
        let n: usize = self.dynamic_lengths.len();
        let mut ts = tokens::stream_new();
        if n == 0 {
            tokens::push_str_literal(&mut ts, printed.as_str());
            assert(tokens::stream_tokens(ts) =~= seq![Token::Str(printed@)]);
            return ts;
        }
        let mut body = tokens::words_stream("let mut");
        tokens::push_words(&mut body, "__s");
        tokens::push_words(&mut body, "=");
        tokens::push_words(&mut body, "anchor_lang :: __alloc :: string :: String :: new");
        tokens::push_unit(&mut body);
        tokens::push_words(&mut body, ";");
        let ghost head = tokens::stream_tokens(body);
        let ghost mut done: Seq<Step> = Seq::empty();
        let mut remaining: &str = printed.as_str();
        let mut i: usize = 0;
        proof {
            assert(head + steps_tokens(done, lengths) =~= head);
            assert(done + length_steps(printed@, 0, n as nat) =~= length_steps(
                printed@,
                0,
                n as nat,
            ));
        }
        while i < n
            invariant
                i <= n,
                n == self.dynamic_lengths@.len(),
                lengths == self.open_lengths(),
                lengths.len() == n,
                markers_found(remaining@, i as nat, n as nat),
                done + length_steps(remaining@, i as nat, n as nat) == length_steps(
                    printed@,
                    0,
                    n as nat,
                ),
                tokens::stream_tokens(body) == head + steps_tokens(done, lengths),
            decreases n - i,
        {
            let ghost earlier = done;
            let ghost rest = remaining@;
            let marker = json::value_to_string(&crate::lower::marker_value(i));
            if let Some((before, after)) = text::split_once(remaining, marker.as_str()) {
                if !before.is_empty() {
                    push_text_step(&mut body, before, Ghost(lengths));
                    proof {
                        lemma_steps_tokens_push(done, Step::Text(before@), lengths);
                        assert(head + steps_tokens(done, lengths) + step_tokens(
                            Step::Text(before@),
                            lengths,
                        ) =~= head + steps_tokens(done.push(Step::Text(before@)), lengths));
                        done = done.push(Step::Text(before@));
                    }
                }
                push_length_step(&mut body, &self.dynamic_lengths, i, Ghost(lengths));
                proof {
                    lemma_steps_tokens_push(done, Step::Length(i as nat), lengths);
                    assert(head + steps_tokens(done, lengths) + step_tokens(
                        Step::Length(i as nat),
                        lengths,
                    ) =~= head + steps_tokens(done.push(Step::Length(i as nat)), lengths));
                    done = done.push(Step::Length(i as nat));
                    assert(earlier + length_steps(rest, i as nat, n as nat) =~= done
                        + length_steps(after@, (i + 1) as nat, n as nat));
                }
                remaining = after;
            }
            i = i + 1;
        }
        if !remaining.is_empty() {
            push_text_step(&mut body, remaining, Ghost(lengths));
            proof {
                lemma_steps_tokens_push(done, Step::Text(remaining@), lengths);
                assert(head + steps_tokens(done, lengths) + step_tokens(
                    Step::Text(remaining@),
                    lengths,
                ) =~= head + steps_tokens(done.push(Step::Text(remaining@)), lengths));
                done = done.push(Step::Text(remaining@));
            }
        }
        assert(done =~= length_steps(printed@, 0, n as nat));
        tokens::push_stream(&mut body, &pushes::emit_leak());
        tokens::push_group(&mut ts, Delim::Brace, body);
        assert(tokens::stream_tokens(ts) =~= text_expr(printed@, lengths));
        ts
    }
}

/// A document without open lengths becomes the literal of its text.
pub proof fn law_known_documents_are_literals(s: Seq<char>)
    ensures
        text_expr(s, Seq::empty()) == seq![Token::Str(s)],
{
}

} // verus!
