//! Generated code as token streams.
//!
//! The generated code is a `proc_macro2::TokenStream`. The specifications see
//! it as the flat sequence of its [`Token`]s, delimiters included, and write
//! code templates as blank-separated words (see [`words`]).

use proc_macro2::{Delimiter, Group, Ident, Literal, Punct, Spacing, Span, TokenStream};
use quote::{ToTokens, TokenStreamExt};
use vstd::prelude::*;
use vstd::string::*;

verus! {

/// The delimiters of a group of tokens.
#[derive(Clone, Copy)]
pub enum Delim {
    Paren,
    Brace,
    Bracket,
    Invisible,
}

/// One token as the specifications see it. A punctuation character carries
/// whether it is joined to the next one. Of the literals without a suffix, a
/// string is given by what it denotes, a character or byte by its value and a
/// decimal integer by its number; any other literal is given by its spelling.
pub enum Token {
    Ident(Seq<char>),
    Punct(char, bool),
    Str(Seq<char>),
    Char(char),
    Byte(u8),
    Number(nat),
    Literal(Seq<char>),
    Open(Delim),
    Close(Delim),
}

// ---------------------------------------------------------------------------
// Templates
// ---------------------------------------------------------------------------

pub open spec fn is_digit(c: char) -> bool {
    '0' <= c <= '9'
}

pub open spec fn is_ident_char(c: char) -> bool {
    'a' <= c <= 'z' || 'A' <= c <= 'Z' || c == '_' || is_digit(c)
}

/// An identifier of ASCII characters.
pub open spec fn is_ident(w: Seq<char>) -> bool {
    &&& w.len() > 0
    &&& !is_digit(w[0])
    &&& forall|i: int| 0 <= i < w.len() ==> is_ident_char(#[trigger] w[i])
}

/// The characters that can stand in an operator.
pub open spec fn is_punct(c: char) -> bool {
    c == '!' || c == '#' || c == '$' || c == '%' || c == '&' || c == '\'' || c == '*' || c == '+'
        || c == ',' || c == '-' || c == '.' || c == '/' || c == ':' || c == ';' || c == '<' || c
        == '=' || c == '>' || c == '?' || c == '@' || c == '^' || c == '|' || c == '~'
}

/// The first `n` characters of an operator, all but its last joined to the
/// next one.
pub open spec fn operator_tokens(w: Seq<char>, n: nat) -> Seq<Token>
    decreases n,
{
    if n == 0 {
        Seq::empty()
    } else {
        let rest = operator_tokens(w, (n - 1) as nat);
        let c = w[n - 1];
        if is_punct(c) {
            rest.push(Token::Punct(c, n < w.len()))
        } else {
            rest
        }
    }
}

/// The tokens of one word: an identifier or keyword, a lifetime, or an
/// operator.
pub open spec fn word_tokens(w: Seq<char>) -> Seq<Token> {
    if is_ident(w) {
        seq![Token::Ident(w)]
    } else if w.len() > 0 && w[0] == '\'' && is_ident(w.skip(1)) {
        seq![Token::Punct('\'', true), Token::Ident(w.skip(1))]
    } else {
        operator_tokens(w, w.len())
    }
}

/// The length of the text up to its first blank.
pub open spec fn word_len(s: Seq<char>) -> nat
    decreases s.len(),
{
    if s.len() == 0 || s[0] == ' ' {
        0
    } else {
        1 + word_len(s.drop_first())
    }
}

/// The tokens of a text whose words are separated by blanks.
pub open spec fn words(s: Seq<char>) -> Seq<Token>
    decreases s.len(),
{
    let n = word_len(s);
    if n < s.len() {
        word_tokens(s.take(n as int)) + words(s.skip(n as int + 1))
    } else {
        word_tokens(s)
    }
}

/// A group of tokens with its delimiters.
pub open spec fn group(delim: Delim, inner: Seq<Token>) -> Seq<Token> {
    seq![Token::Open(delim)] + inner + seq![Token::Close(delim)]
}

// ---------------------------------------------------------------------------
// proc_macro2 and quote
// ---------------------------------------------------------------------------

#[verifier::external_type_specification]
#[verifier::external_body]
pub struct ExTokenStream(TokenStream);

/// The tokens that a stream holds.
pub uninterp spec fn stream_tokens(ts: TokenStream) -> Seq<Token>;

/// The source text that a stream prints.
pub uninterp spec fn stream_text(ts: TokenStream) -> Seq<char>;

/// `TokenStream::new`: the empty stream.
#[verifier::external_body]
pub(crate) fn stream_new() -> (ts: TokenStream)
    ensures
        stream_tokens(ts) == Seq::<Token>::empty(),
{
    TokenStream::new()
}

/// `TokenStream::to_string`: the source text of the stream, as it prints.
#[verifier::external_body]
pub(crate) fn stream_to_string(ts: &TokenStream) -> (text: String)
    ensures
        text@ == stream_text(*ts),
{
    ts.to_string()
}

/// `Ident::new`, appended by `TokenStreamExt::append`: one more identifier.
/// `Ident::new` panics on what is no identifier.
#[verifier::external_body]
fn append_ident(ts: &mut TokenStream, name: &str)
    requires
        is_ident(name@),
    ensures
        stream_tokens(*final(ts)) == stream_tokens(*old(ts)).push(Token::Ident(name@)),
{
    ts.append(Ident::new(name, Span::call_site()));
}

/// `Punct::new`, appended by `TokenStreamExt::append`: one more punctuation
/// character. `Punct::new` panics on characters outside its list.
#[verifier::external_body]
fn append_punct(ts: &mut TokenStream, c: char, joint: bool)
    requires
        is_punct(c),
    ensures
        stream_tokens(*final(ts)) == stream_tokens(*old(ts)).push(Token::Punct(c, joint)),
{
    ts.append(Punct::new(c, if joint { Spacing::Joint } else { Spacing::Alone }));
}

/// `ToTokens::to_tokens` of a `str`: one more string literal, which denotes
/// the string.
#[verifier::external_body]
pub(crate) fn push_str_literal(ts: &mut TokenStream, s: &str)
    ensures
        stream_tokens(*final(ts)) == stream_tokens(*old(ts)) + seq![Token::Str(s@)],
{
    s.to_tokens(ts);
}

/// `Literal::character`, appended by `TokenStreamExt::append`: one more
/// character literal.
#[verifier::external_body]
pub(crate) fn push_char_literal(ts: &mut TokenStream, c: char)
    ensures
        stream_tokens(*final(ts)) == stream_tokens(*old(ts)) + seq![Token::Char(c)],
{
    ts.append(Literal::character(c));
}

/// `Literal::byte_character`, appended by `TokenStreamExt::append`: one more
/// byte literal.
#[verifier::external_body]
pub(crate) fn push_byte_literal(ts: &mut TokenStream, byte: u8)
    ensures
        stream_tokens(*final(ts)) == stream_tokens(*old(ts)) + seq![Token::Byte(byte)],
{
    ts.append(Literal::byte_character(byte));
}

/// `Literal::usize_unsuffixed`, appended by `TokenStreamExt::append`: one more
/// decimal integer without a suffix.
#[verifier::external_body]
pub(crate) fn push_number_literal(ts: &mut TokenStream, n: usize)
    ensures
        stream_tokens(*final(ts)) == stream_tokens(*old(ts)) + seq![Token::Number(n as nat)],
{
    ts.append(Literal::usize_unsuffixed(n));
}

/// `ToTokens::to_tokens` of a `TokenStream`: all its tokens, in order.
#[verifier::external_body]
pub(crate) fn push_stream(ts: &mut TokenStream, other: &TokenStream)
    ensures
        stream_tokens(*final(ts)) == stream_tokens(*old(ts)) + stream_tokens(*other),
{
    other.to_tokens(ts);
}

/// `Group::new`, appended by `TokenStreamExt::append`: the tokens of `inner`
/// between the delimiters.
#[verifier::external_body]
pub(crate) fn push_group(ts: &mut TokenStream, delim: Delim, inner: TokenStream)
    ensures
        stream_tokens(*final(ts)) == stream_tokens(*old(ts)) + group(delim, stream_tokens(inner)),
{
    let delimiter = match delim {
        Delim::Paren => Delimiter::Parenthesis,
        Delim::Brace => Delimiter::Brace,
        Delim::Bracket => Delimiter::Bracket,
        Delim::Invisible => Delimiter::None,
    };
    ts.append(Group::new(delimiter, inner));
}

// ---------------------------------------------------------------------------
// Appending templates
// ---------------------------------------------------------------------------

fn check_ident(w: &str) -> (ok: bool)
    ensures
        ok == is_ident(w@),
{
    let n: usize = w.unicode_len();
    if n == 0 {
        return false;
    }
    let first: char = w.get_char(0);
    if '0' <= first && first <= '9' {
        return false;
    }
    let mut i: usize = 0;
    while i < n
        invariant
            n == w@.len(),
            i <= n,
            forall|k: int| 0 <= k < i ==> is_ident_char(#[trigger] w@[k]),
        decreases n - i,
    {
        let c: char = w.get_char(i);
        let ok = ('a' <= c && c <= 'z') || ('A' <= c && c <= 'Z') || c == '_' || ('0' <= c && c
            <= '9');
        if !ok {
            assert(!is_ident_char(w@[i as int]));
            return false;
        }
        i = i + 1;
    }
    true
}

fn check_punct(c: char) -> (ok: bool)
    ensures
        ok == is_punct(c),
{
    c == '!' || c == '#' || c == '$' || c == '%' || c == '&' || c == '\'' || c == '*' || c == '+'
        || c == ',' || c == '-' || c == '.' || c == '/' || c == ':' || c == ';' || c == '<' || c
        == '=' || c == '>' || c == '?' || c == '@' || c == '^' || c == '|' || c == '~'
}

fn push_word(ts: &mut TokenStream, w: &str)
    ensures
        stream_tokens(*final(ts)) == stream_tokens(*old(ts)) + word_tokens(w@),
{
    let ghost before = stream_tokens(*ts);
    if check_ident(w) {
        append_ident(ts, w);
        assert(stream_tokens(*ts) =~= before + seq![Token::Ident(w@)]);
        return ;
    }
    let n: usize = w.unicode_len();
    if n > 0 && w.get_char(0) == '\'' {
        let rest = w.substring_char(1, n);
        assert(rest@ =~= w@.skip(1));
        if check_ident(rest) {
            append_punct(ts, '\'', true);
            append_ident(ts, rest);
            assert(stream_tokens(*ts) =~= before + seq![
                Token::Punct('\'', true),
                Token::Ident(w@.skip(1)),
            ]);
            return ;
        }
    }
    let mut i: usize = 0;
    assert(before + operator_tokens(w@, 0) =~= before);
    while i < n
        invariant
            n == w@.len(),
            i <= n,
            stream_tokens(*ts) == before + operator_tokens(w@, i as nat),
        decreases n - i,
    {
        let c: char = w.get_char(i);
        if check_punct(c) {
            append_punct(ts, c, i + 1 < n);
        }
        i = i + 1;
        assert(stream_tokens(*ts) =~= before + operator_tokens(w@, i as nat));
    }
}

proof fn lemma_word_len(s: Seq<char>, n: nat)
    requires
        n <= s.len(),
        forall|k: int| 0 <= k < n ==> s[k] != ' ',
        n == s.len() || s[n as int] == ' ',
    ensures
        word_len(s) == n,
    decreases s.len(),
{
    if n > 0 {
        assert forall|k: int| 0 <= k < n - 1 implies s.drop_first()[k] != ' ' by {
            assert(s.drop_first()[k] == s[k + 1]);
        }
        lemma_word_len(s.drop_first(), (n - 1) as nat);
    }
}

/// Appends the tokens of a template.
pub(crate) fn push_words(ts: &mut TokenStream, text: &str)
    ensures
        stream_tokens(*final(ts)) == stream_tokens(*old(ts)) + words(text@),
{
    let ghost before = stream_tokens(*ts);
    let n: usize = text.unicode_len();
    let mut start: usize = 0;
    let mut end: usize = 0;
    assert(text@.skip(0) =~= text@);
    while end < n && text.get_char(end) != ' '
        invariant
            end <= n,
            n == text@.len(),
            forall|k: int| 0 <= k < end ==> text@[k] != ' ',
        decreases n - end,
    {
        end = end + 1;
    }
    while end < n
        invariant
            start <= end <= n,
            n == text@.len(),
            forall|k: int| start <= k < end ==> text@[k] != ' ',
            end < n ==> text@[end as int] == ' ',
            stream_tokens(*ts) + words(text@.skip(start as int)) == before + words(text@),
        decreases n - end,
    {
        let ghost tail = text@.skip(start as int);
        let ghost held = stream_tokens(*ts);
        let word = text.substring_char(start, end);
        push_word(ts, word);
        proof {
            lemma_word_len(tail, (end - start) as nat);
            assert(word@ =~= tail.take(end - start));
            assert(tail.skip(end - start + 1) =~= text@.skip(end + 1));
            assert(held + words(tail) =~= stream_tokens(*ts) + words(text@.skip(end + 1)));
        }
        start = end + 1;
        end = start;
        while end < n && text.get_char(end) != ' '
            invariant
                start <= end <= n,
                n == text@.len(),
                forall|k: int| start <= k < end ==> text@[k] != ' ',
            decreases n - end,
        {
            end = end + 1;
        }
    }
    let word = text.substring_char(start, end);
    push_word(ts, word);
    proof {
        let tail = text@.skip(start as int);
        lemma_word_len(tail, (end - start) as nat);
        assert(word@ =~= tail);
    }
}

/// The tokens of a template.
pub(crate) fn words_stream(text: &str) -> (ts: TokenStream)
    ensures
        stream_tokens(ts) == words(text@),
{
    let mut ts = stream_new();
    push_words(&mut ts, text);
    assert(stream_tokens(ts) =~= words(text@));
    ts
}

/// Appends an empty pair of parentheses.
pub(crate) fn push_unit(ts: &mut TokenStream)
    ensures
        stream_tokens(*final(ts)) == stream_tokens(*old(ts)) + group(Delim::Paren, Seq::empty()),
{
    push_group(ts, Delim::Paren, stream_new());
}

// ---------------------------------------------------------------------------
// Laws
// ---------------------------------------------------------------------------

proof fn lemma_word_len_add(a: Seq<char>, b: Seq<char>)
    ensures
        word_len(a) <= a.len(),
        word_len(a + seq![' '] + b) == word_len(a),
    decreases a.len(),
{
    let s = a + seq![' '] + b;
    if a.len() > 0 && a[0] != ' ' {
        lemma_word_len_add(a.drop_first(), b);
        assert(s.drop_first() =~= a.drop_first() + seq![' '] + b);
    }
}

/// The tokens of two templates with a blank between them follow each other.
pub proof fn law_templates_follow_each_other(a: Seq<char>, b: Seq<char>)
    ensures
        words(a + seq![' '] + b) == words(a) + words(b),
    decreases a.len(),
{
    let s = a + seq![' '] + b;
    let n = word_len(a);
    lemma_word_len_add(a, b);
    assert(s.take(n as int) =~= a.take(n as int));
    if n < a.len() {
        let rest = a.skip(n as int + 1);
        assert(s.skip(n as int + 1) =~= rest + seq![' '] + b);
        law_templates_follow_each_other(rest, b);
        assert(words(s) =~= words(a) + words(b));
    } else {
        assert(a.take(n as int) =~= a);
        assert(s.skip(n as int + 1) =~= b);
    }
}

proof fn lemma_one_word(w: Seq<char>)
    requires
        forall|i: int| 0 <= i < w.len() ==> #[trigger] w[i] != ' ',
    ensures
        words(w) == word_tokens(w),
{
    lemma_word_len(w, w.len());
}

proof fn lemma_operator(w: Seq<char>, n: nat)
    requires
        n <= w.len(),
        forall|i: int| 0 <= i < w.len() ==> is_punct(#[trigger] w[i]),
    ensures
        operator_tokens(w, n).len() == n,
        forall|i: int|
            0 <= i < n ==> #[trigger] operator_tokens(w, n)[i] == Token::Punct(
                w[i],
                i + 1 < w.len(),
            ),
    decreases n,
{
    if n > 0 {
        lemma_operator(w, (n - 1) as nat);
        assert(is_punct(w[n - 1]));
        let rest = operator_tokens(w, (n - 1) as nat);
        assert(operator_tokens(w, n) == rest.push(Token::Punct(w[n - 1], n < w.len())));
        assert forall|i: int| 0 <= i < n implies #[trigger] operator_tokens(w, n)[i]
            == Token::Punct(w[i], i + 1 < w.len()) by {
            if i < n - 1 {
                assert(operator_tokens(w, n)[i] == rest[i]);
            }
        }
    }
}

/// An identifier is one token; the characters of an operator are tokens that
/// are joined to each other; and a lifetime is a quote that is joined to its
/// identifier.
pub proof fn law_words_are_tokens(w: Seq<char>)
    ensures
        is_ident(w) ==> words(w) == seq![Token::Ident(w)],
        is_ident(w) ==> words(seq!['\''] + w) == seq![Token::Punct('\'', true), Token::Ident(w)],
        w.len() > 0 && (forall|i: int| 0 <= i < w.len() ==> is_punct(#[trigger] w[i])) ==> words(
            w,
        ).len() == w.len() && forall|i: int|
            0 <= i < w.len() ==> #[trigger] words(w)[i] == Token::Punct(w[i], i + 1 < w.len()),
{
    if is_ident(w) {
        assert forall|i: int| 0 <= i < w.len() implies #[trigger] w[i] != ' ' by {
            assert(is_ident_char(w[i]));
        }
        lemma_one_word(w);
        let life = seq!['\''] + w;
        assert forall|i: int| 0 <= i < life.len() implies #[trigger] life[i] != ' ' by {
            if i > 0 {
                assert(life[i] == w[i - 1]);
            }
        }
        lemma_one_word(life);
        assert(life.skip(1) =~= w);
        assert(!is_ident_char(life[0]));
        assert(!is_ident(life));
    }
    if w.len() > 0 && (forall|i: int| 0 <= i < w.len() ==> is_punct(#[trigger] w[i])) {
        assert forall|i: int| 0 <= i < w.len() implies #[trigger] w[i] != ' ' by {
            assert(is_punct(w[i]));
        }
        lemma_one_word(w);
        assert(is_punct(w[0]));
        assert(!is_ident_char(w[0]));
        assert(!is_ident(w));
        if w[0] == '\'' && is_ident(w.skip(1)) {
            assert(is_ident_char(w.skip(1)[0]));
            assert(w.skip(1)[0] == w[1]);
            assert(is_punct(w[1]));
        }
        lemma_operator(w, w.len());
    }
}

} // verus!
