//! Generated calls of `format!`.

use crate::tokens::{self, Delim, Token};
use proc_macro2::TokenStream;
use vstd::prelude::*;
use vstd::string::*;

verus! {

/// A piece of what a call formats: a fixed text, or an argument in its place.
/// The arguments are code where the call is generated, and texts where it is
/// evaluated.
pub enum Piece<A> {
    Text(Seq<char>),
    Arg(A),
}

/// The text in a format string: braces are doubled.
pub open spec fn doubled(s: Seq<char>) -> Seq<char>
    decreases s.len(),
{
    if s.len() == 0 {
        Seq::empty()
    } else if s.last() == '{' || s.last() == '}' {
        doubled(s.drop_last()) + seq![s.last(), s.last()]
    } else {
        doubled(s.drop_last()).push(s.last())
    }
}

/// The format string, `{}` standing for each argument.
pub open spec fn template<A>(pieces: Seq<Piece<A>>) -> Seq<char>
    decreases pieces.len(),
{
    if pieces.len() == 0 {
        Seq::empty()
    } else {
        template(pieces.drop_last()) + (match pieces.last() {
            Piece::Text(s) => doubled(s),
            Piece::Arg(_) => seq!['{', '}'],
        })
    }
}

/// The arguments, each behind a comma.
pub open spec fn arg_list(pieces: Seq<Piece<Seq<Token>>>) -> Seq<Token>
    decreases pieces.len(),
{
    if pieces.len() == 0 {
        Seq::empty()
    } else {
        match pieces.last() {
            Piece::Text(_) => arg_list(pieces.drop_last()),
            Piece::Arg(arg) => arg_list(pieces.drop_last()) + tokens::words(","@) + arg,
        }
    }
}

/// `anchor_lang::__alloc::format!("template", arg, arg)`, with or without a
/// comma at the end.
pub open spec fn format_expr(pieces: Seq<Piece<Seq<Token>>>, trailing: bool) -> Seq<Token> {
    tokens::words("anchor_lang :: __alloc :: format !"@) + tokens::group(
        Delim::Paren,
        seq![Token::Str(template(pieces))] + arg_list(pieces) + (if trailing {
            tokens::words(","@)
        } else {
            Seq::empty()
        }),
    )
}

/// What the call evaluates to.
pub open spec fn formatted(pieces: Seq<Piece<Seq<char>>>) -> Seq<char>
    decreases pieces.len(),
{
    if pieces.len() == 0 {
        Seq::empty()
    } else {
        formatted(pieces.drop_last()) + (match pieces.last() {
            Piece::Text(s) => s,
            Piece::Arg(arg) => arg,
        })
    }
}

/// The arguments one after the other, each behind a comma.
spec fn listed(args: Seq<TokenStream>) -> Seq<Token>
    decreases args.len(),
{
    if args.len() == 0 {
        Seq::empty()
    } else {
        listed(args.drop_last()) + tokens::words(","@) + tokens::stream_tokens(args.last())
    }
}

/// The streams are the arguments among the pieces.
pub(crate) open spec fn are_args(args: Seq<TokenStream>, pieces: Seq<Piece<Seq<Token>>>) -> bool
    decreases pieces.len(),
{
    if pieces.len() == 0 {
        args.len() == 0
    } else {
        match pieces.last() {
            Piece::Text(_) => are_args(args, pieces.drop_last()),
            Piece::Arg(arg) => args.len() > 0 && tokens::stream_tokens(args.last()) == arg
                && are_args(args.drop_last(), pieces.drop_last()),
        }
    }
}

proof fn lemma_listed(args: Seq<TokenStream>, pieces: Seq<Piece<Seq<Token>>>)
    requires
        are_args(args, pieces),
    ensures
        listed(args) == arg_list(pieces),
    decreases pieces.len(),
{
    if pieces.len() > 0 {
        match pieces.last() {
            Piece::Text(_) => lemma_listed(args, pieces.drop_last()),
            Piece::Arg(_) => lemma_listed(args.drop_last(), pieces.drop_last()),
        }
    }
}

/// The call that formats the pieces.
pub(crate) fn emit_format(
    format: &str,
    args: Vec<TokenStream>,
    trailing: bool,
    Ghost(pieces): Ghost<Seq<Piece<Seq<Token>>>>,
) -> (ts: TokenStream)
    requires
        format@ == template(pieces),
        are_args(args@, pieces),
    ensures
        tokens::stream_tokens(ts) == format_expr(pieces, trailing),
{
    let mut list = tokens::stream_new();
    tokens::push_str_literal(&mut list, format);
    let mut i: usize = 0;
    proof {
        assert(args@.take(0) =~= Seq::empty());
        assert(tokens::stream_tokens(list) =~= seq![Token::Str(format@)] + listed(args@.take(0)));
    }
    while i < args.len()
        invariant
            i <= args@.len(),
            tokens::stream_tokens(list) == seq![Token::Str(format@)] + listed(
                args@.take(i as int),
            ),
        decreases args@.len() - i,
    {
        tokens::push_words(&mut list, ",");
        tokens::push_stream(&mut list, &args[i]);
        i = i + 1;
        proof {
            let taken = args@.take(i as int);
            assert(taken.drop_last() =~= args@.take(i - 1));
            assert(tokens::stream_tokens(list) =~= seq![Token::Str(format@)] + listed(taken));
        }
    }
    proof {
        assert(args@.take(i as int) =~= args@);
        lemma_listed(args@, pieces);
    }
    if trailing {
        tokens::push_words(&mut list, ",");
    }
    assert(tokens::stream_tokens(list) =~= seq![Token::Str(format@)] + arg_list(pieces) + (
    if trailing {
        tokens::words(","@)
    } else {
        Seq::empty()
    }));
    let mut ts = tokens::words_stream("anchor_lang :: __alloc :: format !");
    tokens::push_group(&mut ts, Delim::Paren, list);
    ts
}

/// A text without braces stands in a format string as it is.
pub proof fn lemma_doubled_plain(s: Seq<char>)
    requires
        forall|i: int| 0 <= i < s.len() ==> #[trigger] s[i] != '{' && s[i] != '}',
    ensures
        doubled(s) == s,
    decreases s.len(),
{
    if s.len() > 0 {
        assert forall|i: int| 0 <= i < s.drop_last().len() implies #[trigger] s.drop_last()[i]
            != '{' && s.drop_last()[i] != '}' by {
            assert(s.drop_last()[i] == s[i]);
        }
        lemma_doubled_plain(s.drop_last());
        assert(s[s.len() - 1] != '{' && s[s.len() - 1] != '}');
    }
    assert(doubled(s) =~= s);
}

} // verus!
