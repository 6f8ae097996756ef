//! The account lists of instructions.
//!
//! An account entry depends on constants of the field's type that are known
//! only when the IDL is built. So the code that is generated assembles the JSON
//! text itself; what is known earlier is part of its literals.

use crate::code::{self, Data};
use crate::docs;
use crate::entries;
use crate::formats::{self, Piece};
use crate::json;
use crate::pushes;
use crate::setting::Build;
use crate::syntax::Type;
use crate::text;
use crate::tokens::{self, Delim, Token};
use proc_macro2::TokenStream;
use vstd::prelude::*;
use vstd::string::*;

verus! {

/// One field of an accounts struct.
pub struct AccountsJsonField<'a> {
    pub name: &'a str,
    pub writable: bool,
    pub init_signer: bool,
    /// The type of the field is `Option<T>`.
    pub is_optional: bool,
    /// The fields whose `has_one` chain targets this field. They are listed on
    /// the account that is referred to, not on the one that refers to it.
    pub relations: Vec<&'a str>,
    /// The documentation lines of the field, in order.
    pub docs: &'a [String],
    /// An expression that evaluates to the `pda` object, if the field has
    /// seeds.
    pub pda_json: Option<TokenStream>,
    /// The type whose constants tell signer and address, `Option` taken off.
    pub field_ty: &'a Option<Type>,
    /// The address as a path of fields which clients walk.
    pub address_override: Option<&'a str>,
    /// The address as an expression, evaluated when the IDL is built.
    pub address_override_expr: Option<&'a TokenStream>,
    /// The inner struct of a `Nested<Inner>` field, whose accounts stand in
    /// place of the field.
    pub nested_inner_ty: Option<&'a Type>,
}

// ---------------------------------------------------------------------------
// Literals
// ---------------------------------------------------------------------------

pub open spec fn flag_text(set: bool, text: Seq<char>) -> Seq<char> {
    if set {
        text
    } else {
        ""@
    }
}

pub open spec fn relation_texts(relations: Seq<&str>) -> Seq<Seq<char>> {
    Seq::new(relations.len(), |i: int| "\""@ + relations[i]@ + "\""@)
}

/// `,"relations":["a","b"]`, or nothing.
pub open spec fn relations_text(relations: Seq<&str>) -> Seq<char> {
    if relations.len() == 0 {
        Seq::empty()
    } else {
        ",\"relations\":["@ + json::joined(relation_texts(relations), ',') + "]"@
    }
}

/// `,"docs":["line","line"]`, or nothing.
pub open spec fn docs_text(lines: Seq<String>) -> Seq<char> {
    if lines.len() == 0 {
        Seq::empty()
    } else {
        ",\"docs\":"@ + json::json_text(docs::docs_json(text::views(lines)))
    }
}

fn flag_literal(set: bool, text: &'static str) -> (literal: &'static str)
    ensures
        literal@ == flag_text(set, text@),
{
    if set {
        text
    } else {
        ""
    }
}

fn relations_literal(relations: &Vec<&str>) -> (literal: String)
    ensures
        literal@ == relations_text(relations@),
{
    let mut list = String::new();
    if relations.len() == 0 {
        assert(list@ =~= Seq::empty());
        return list;
    }
    let ghost parts = relation_texts(relations@);
    let mut i: usize = 0;
    assert(list@ =~= json::joined(parts.take(0), ','));
    while i < relations.len()
        invariant
            i <= relations@.len(),
            parts == relation_texts(relations@),
            list@ == json::joined(parts.take(i as int), ','),
        decreases relations@.len() - i,
    {
        let ghost before = list@;
        if i > 0 {
            list.append(",");
        }
        list.append("\"");
        list.append(relations[i]);
        list.append("\"");
        i = i + 1;
        proof {
            reveal_strlit(",");
            let taken = parts.take(i as int);
            assert(taken.drop_last() =~= parts.take(i - 1));
            assert(taken.last() == "\""@ + relations@[i - 1]@ + "\""@);
            assert(","@ =~= seq![',']);
            if i == 1 {
                assert(list@ =~= taken[0]);
            } else {
                assert(list@ =~= before + seq![','] + taken.last());
            }
        }
    }
    assert(parts.take(i as int) =~= parts);
    let mut literal = ",\"relations\":[".to_owned();
    literal.append(list.as_str());
    literal.append("]");
    literal
}

fn docs_literal(lines: &[String]) -> (literal: String)
    ensures
        literal@ == docs_text(lines@),
{
    let mut literal = String::new();
    if lines.len() == 0 {
        assert(literal@ =~= Seq::empty());
        return literal;
    }
    literal.append(",\"docs\":");
    let list = docs::docs_to_json_array(lines);
    literal.append(list.as_str());
    assert(literal@ =~= docs_text(lines@));
    literal
}

// ---------------------------------------------------------------------------
// The code of one entry
// ---------------------------------------------------------------------------

/// `let var = value;`, with the tokens of a type where they are given.
pub open spec fn let_stmt(var: Seq<char>, ty: Option<Seq<Token>>, value: Seq<Token>) -> Seq<Token> {
    tokens::words("let"@) + tokens::words(var) + (match ty {
        Some(ts) => tokens::words(":"@) + ts,
        None => Seq::empty(),
    }) + tokens::words("="@) + value + tokens::words(";"@)
}

/// `let var: anchor_lang::__alloc::string::String = value;`
pub open spec fn let_typed(var: Seq<char>, value: Seq<Token>) -> Seq<Token> {
    let_stmt(var, Some(tokens::words("anchor_lang :: __alloc :: string :: String"@)), value)
}

/// `anchor_lang::__alloc::string::String::new()`
pub open spec fn empty_string() -> Seq<Token> {
    tokens::words("anchor_lang :: __alloc :: string :: String :: new"@) + tokens::group(
        Delim::Paren,
        Seq::empty(),
    )
}

/// The member with the address.
pub open spec fn address_pieces<A>(address: A) -> Seq<Piece<A>> {
    seq![Piece::Text(",\"address\":"@), Piece::Arg(address)]
}

/// The member with the PDA.
pub open spec fn pda_pieces<A>(pda: A) -> Seq<Piece<A>> {
    seq![Piece::Text(",\"pda\":"@), Piece::Arg(pda)]
}

/// A value as it is displayed.
pub open spec fn shown_pieces<A>(value: A) -> Seq<Piece<A>> {
    seq![Piece::Arg(value)]
}

/// `anchor_lang::idl_build::__idl_json_string(text)`
pub open spec fn json_string_call(text: Seq<Token>) -> Seq<Token> {
    tokens::words("anchor_lang :: idl_build :: __idl_json_string"@) + tokens::group(
        Delim::Paren,
        text,
    )
}

/// `anchor_lang::__alloc::format!(",\"address\":{}",
/// anchor_lang::idl_build::__idl_json_string(address),)`
pub open spec fn address_format(address: Seq<Token>) -> Seq<Token> {
    formats::format_expr(address_pieces(json_string_call(address)), true)
}

/// `<ty as anchor_lang::IdlAccountType>::constant`
pub open spec fn account_type_const(ty: Seq<Token>, constant: Seq<char>) -> Seq<Token> {
    tokens::words("<"@) + ty + tokens::words("as anchor_lang :: IdlAccountType > ::"@)
        + tokens::words(constant)
}

/// Where the address of an account comes from.
pub enum AddressSource {
    /// An expression, evaluated when the IDL is built.
    Expr(Seq<Token>),
    /// A path of fields which clients walk.
    Path(Seq<char>),
    /// The constant of the type.
    Constant(Seq<Token>),
    /// There is none.
    Unknown,
}

/// An expression goes before a path of fields, and both before the constant of
/// the type.
pub open spec fn address_source(f: AccountsJsonField) -> AddressSource {
    match *f.field_ty {
        Some(ty) => if f.address_override_expr is Some {
            AddressSource::Expr(tokens::stream_tokens(*f.address_override_expr->0))
        } else if f.address_override is Some {
            AddressSource::Path(f.address_override->0@)
        } else {
            AddressSource::Constant(tokens::stream_tokens(ty.tokens))
        },
        None => if f.address_override is Some {
            AddressSource::Path(f.address_override->0@)
        } else {
            AddressSource::Unknown
        },
    }
}

/// The address from an expression.
///
/// ```text
/// let __addr: anchor_lang::Address = ::core::convert::Into::into(<expr>);
/// let __addr_string = anchor_lang::__alloc::format!("{}", __addr);
/// let __addr_json: anchor_lang::__alloc::string::String = <address format>;
/// ```
pub open spec fn address_from_expr(expr: Seq<Token>) -> Seq<Token> {
    let_stmt(
        "__addr"@,
        Some(tokens::words("anchor_lang :: Address"@)),
        tokens::words(":: core :: convert :: Into :: into"@) + tokens::group(Delim::Paren, expr),
    ) + let_stmt(
        "__addr_string"@,
        None,
        formats::format_expr(shown_pieces(tokens::words("__addr"@)), false),
    ) + let_typed(
        "__addr_json"@,
        address_format(tokens::words("&"@) + tokens::words("__addr_string"@)),
    )
}

/// The address from a path of fields.
pub open spec fn address_from_text(address: Seq<char>) -> Seq<Token> {
    let_typed("__addr_json"@, address_format(seq![Token::Str(address)]))
}

/// The address from the constant of the type.
///
/// ```text
/// let __addr = <<ty> as anchor_lang::IdlAccountType>::__IDL_ADDRESS;
/// let __addr_json: anchor_lang::__alloc::string::String = match __addr {
///     Some(a) => <address format>,
///     None => anchor_lang::__alloc::string::String::new(),
/// };
/// ```
pub open spec fn address_from_type(ty: Seq<Token>) -> Seq<Token> {
    let_stmt("__addr"@, None, account_type_const(ty, "__IDL_ADDRESS"@)) + let_typed(
        "__addr_json"@,
        tokens::words("match"@) + tokens::words("__addr"@) + tokens::group(
            Delim::Brace,
            tokens::words("Some"@) + tokens::group(Delim::Paren, tokens::words("a"@))
                + tokens::words("=>"@) + address_format(tokens::words("a"@)) + tokens::words(
                ", None =>"@,
            ) + empty_string() + tokens::words(","@),
        ),
    )
}

/// The statements that bind `__addr_json`.
pub open spec fn address_stmts(source: AddressSource) -> Seq<Token> {
    match source {
        AddressSource::Expr(expr) => address_from_expr(expr),
        AddressSource::Path(path) => address_from_text(path),
        AddressSource::Constant(ty) => address_from_type(ty),
        AddressSource::Unknown => let_typed("__addr_json"@, empty_string()),
    }
}

/// The statement that binds `__pda_json`.
///
/// ```text
/// let __pda_json: anchor_lang::__alloc::string::String = {
///     let __body: anchor_lang::__alloc::string::String = <pda>;
///     anchor_lang::__alloc::format!(",\"pda\":{}", __body)
/// };
/// ```
pub open spec fn pda_stmt(pda: Option<Seq<Token>>) -> Seq<Token> {
    let_typed(
        "__pda_json"@,
        match pda {
            Some(body) => tokens::group(
                Delim::Brace,
                let_typed("__body"@, body) + formats::format_expr(
                    pda_pieces(tokens::words("__body"@)),
                    false,
                ),
            ),
            None => empty_string(),
        },
    )
}

/// The statements that bind `__signer_json`: the constant of the type, or the
/// flag of the field.
///
/// ```text
/// let __signer = <<ty> as anchor_lang::IdlAccountType>::__IDL_IS_SIGNER || <flag>;
/// let __signer_json: &str = if __signer { ",\"signer\":true" } else { "" };
/// ```
pub open spec fn signer_stmts(ty: Seq<Token>, init_signer: bool) -> Seq<Token> {
    let_stmt(
        "__signer"@,
        None,
        account_type_const(ty, "__IDL_IS_SIGNER"@) + tokens::words("||"@) + tokens::words(
            if init_signer {
                "true"@
            } else {
                "false"@
            },
        ),
    ) + let_stmt(
        "__signer_json"@,
        Some(tokens::words("& str"@)),
        tokens::words("if"@) + tokens::words("__signer"@) + tokens::group(
            Delim::Brace,
            seq![Token::Str(flag_text(true, ",\"signer\":true"@))],
        ) + tokens::words("else"@) + tokens::group(
            Delim::Brace,
            seq![Token::Str(flag_text(false, ",\"signer\":true"@))],
        ),
    )
}

/// What is bound to a variable before the entry is put together.
pub enum LetStep {
    /// Whether the account signs, by its type or by its flag.
    Signer(Seq<Token>, bool),
    Address(AddressSource),
    Pda(Option<Seq<Token>>),
}

/// The variable that is bound.
pub open spec fn let_var(step: LetStep) -> Seq<char> {
    match step {
        LetStep::Signer(_, _) => "__signer_json"@,
        LetStep::Address(_) => "__addr_json"@,
        LetStep::Pda(_) => "__pda_json"@,
    }
}

pub open spec fn let_tokens(step: LetStep) -> Seq<Token> {
    match step {
        LetStep::Signer(ty, init_signer) => signer_stmts(ty, init_signer),
        LetStep::Address(source) => address_stmts(source),
        LetStep::Pda(pda) => pda_stmt(pda),
    }
}

pub open spec fn lets_tokens(steps: Seq<LetStep>) -> Seq<Token>
    decreases steps.len(),
{
    if steps.len() == 0 {
        Seq::empty()
    } else {
        lets_tokens(steps.drop_last()) + let_tokens(steps.last())
    }
}

pub open spec fn pda_code(f: AccountsJsonField) -> Option<Seq<Token>> {
    match f.pda_json {
        Some(ts) => Some(tokens::stream_tokens(ts)),
        None => None,
    }
}

/// The bindings of an entry. The signer is one of them only where there is a
/// type to ask.
pub open spec fn let_steps(f: AccountsJsonField) -> Seq<LetStep> {
    let steps = seq![LetStep::Address(address_source(f)), LetStep::Pda(pda_code(f))];
    match *f.field_ty {
        Some(ty) => seq![LetStep::Signer(tokens::stream_tokens(ty.tokens), f.init_signer)] + steps,
        None => steps,
    }
}

/// An argument of the call that puts an entry together.
pub enum EntryArg {
    Literal(Seq<char>),
    Variable(Seq<char>),
}

pub open spec fn entry_arg_tokens(arg: EntryArg) -> Seq<Token> {
    match arg {
        EntryArg::Literal(s) => seq![Token::Str(s)],
        EntryArg::Variable(name) => tokens::words(name),
    }
}

pub open spec fn signer_arg(f: AccountsJsonField) -> EntryArg {
    if f.field_ty is Some {
        EntryArg::Variable("__signer_json"@)
    } else {
        EntryArg::Literal(flag_text(f.init_signer, ",\"signer\":true"@))
    }
}

/// What an entry is put together from, `arg` telling what stands for each
/// argument.
pub open spec fn entry_pieces<A>(f: AccountsJsonField, arg: spec_fn(EntryArg) -> A) -> Seq<
    Piece<A>,
> {
    seq![
        Piece::Text("{\"name\":\""@),
        Piece::Arg(arg(EntryArg::Literal(f.name@))),
        Piece::Text("\""@),
        Piece::Arg(arg(EntryArg::Literal(flag_text(f.writable, ",\"writable\":true"@)))),
        Piece::Arg(arg(signer_arg(f))),
        Piece::Arg(arg(EntryArg::Variable("__addr_json"@))),
        Piece::Arg(arg(EntryArg::Literal(flag_text(f.is_optional, ",\"optional\":true"@)))),
        Piece::Arg(arg(EntryArg::Literal(relations_text(f.relations@)))),
        Piece::Arg(arg(EntryArg::Literal(docs_text(f.docs@)))),
        Piece::Arg(arg(EntryArg::Variable("__pda_json"@))),
        Piece::Text("}"@),
    ]
}

/// The call that puts the entry together.
pub open spec fn entry_format(f: AccountsJsonField) -> Seq<Token> {
    formats::format_expr(entry_pieces(f, |arg: EntryArg| entry_arg_tokens(arg)), true)
}

/// `var.len()`
pub open spec fn len_call(var: Seq<char>) -> Seq<Token> {
    tokens::words(var) + tokens::words(". len"@) + tokens::group(Delim::Paren, Seq::empty())
}

/// What is tested of the bytes of an account list.
pub enum ByteTest {
    AtLeast(usize),
    First(u8),
    Last(u8),
}

pub open spec fn byte_test_tokens(test: ByteTest) -> Seq<Token> {
    match test {
        ByteTest::AtLeast(n) => len_call("__bytes"@) + tokens::words(">="@) + seq![
            Token::Number(n as nat),
        ],
        ByteTest::First(byte) => tokens::words("__bytes"@) + tokens::group(
            Delim::Bracket,
            seq![Token::Number(0)],
        ) + tokens::words("=="@) + seq![Token::Byte(byte)],
        ByteTest::Last(byte) => tokens::words("__bytes"@) + tokens::group(
            Delim::Bracket,
            len_call("__bytes"@) + tokens::words("-"@) + seq![Token::Number(1)],
        ) + tokens::words("=="@) + seq![Token::Byte(byte)],
    }
}

/// The tests, all of which must hold.
pub open spec fn byte_tests_tokens(tests: Seq<ByteTest>) -> Seq<Token>
    decreases tests.len(),
{
    if tests.len() == 0 {
        Seq::empty()
    } else if tests.len() == 1 {
        byte_test_tokens(tests[0])
    } else {
        byte_tests_tokens(tests.drop_last()) + tokens::words("&&"@) + byte_test_tokens(
            tests.last(),
        )
    }
}

/// The list stands between brackets.
pub open spec fn bracket_tests() -> Seq<ByteTest> {
    seq![ByteTest::AtLeast(2), ByteTest::First(91), ByteTest::Last(93)]
}

/// How many bytes a bracket has.
pub const BRACKET_LEN: usize = 1;

/// The block for a nested struct: its own entries without the brackets.
///
/// ```text
/// {
///     let __inner = <<inner>>::__idl_accounts();
///     let __bytes = __inner.as_bytes();
///     if __bytes.len() >= 2
///         && __bytes[0] == b'['
///         && __bytes[__bytes.len() - 1] == b']'
///     {
///         __inner[1..__inner.len() - 1].to_string()
///     } else {
///         __inner
///     }
/// }
/// ```
pub open spec fn nested_part(inner: Seq<Token>) -> Seq<Token> {
    tokens::group(
        Delim::Brace,
        let_stmt(
            "__inner"@,
            None,
            tokens::words("<"@) + inner + tokens::words("> :: __idl_accounts"@) + tokens::group(
                Delim::Paren,
                Seq::empty(),
            ),
        ) + let_stmt(
            "__bytes"@,
            None,
            tokens::words("__inner"@) + tokens::words(". as_bytes"@) + tokens::group(
                Delim::Paren,
                Seq::empty(),
            ),
        ) + (tokens::words("if"@) + byte_tests_tokens(bracket_tests()) + tokens::group(
            Delim::Brace,
            tokens::words("__inner"@) + tokens::group(
                Delim::Bracket,
                seq![Token::Number(BRACKET_LEN as nat)] + tokens::words(".."@) + len_call(
                    "__inner"@,
                ) + tokens::words("-"@) + seq![Token::Number(BRACKET_LEN as nat)],
            ) + tokens::words(". to_string"@) + tokens::group(Delim::Paren, Seq::empty()),
        ) + tokens::words("else"@) + tokens::group(Delim::Brace, tokens::words("__inner"@))),
    )
}

/// The block that evaluates to the JSON of a field.
pub open spec fn field_part(f: AccountsJsonField) -> Seq<Token> {
    match f.nested_inner_ty {
        Some(inner) => nested_part(tokens::stream_tokens(inner.tokens)),
        None => tokens::group(Delim::Brace, lets_tokens(let_steps(f)) + entry_format(f)),
    }
}

fn str_stream(s: &str) -> (ts: TokenStream)
    ensures
        tokens::stream_tokens(ts) == seq![Token::Str(s@)],
{
    let mut ts = tokens::stream_new();
    tokens::push_str_literal(&mut ts, s);
    assert(tokens::stream_tokens(ts) =~= seq![Token::Str(s@)]);
    ts
}

fn number_stream(n: usize) -> (ts: TokenStream)
    ensures
        tokens::stream_tokens(ts) == seq![Token::Number(n as nat)],
{
    let mut ts = tokens::stream_new();
    tokens::push_number_literal(&mut ts, n);
    assert(tokens::stream_tokens(ts) =~= seq![Token::Number(n as nat)]);
    ts
}

fn emit_let(var: &str, ty: Option<&str>, value: &TokenStream) -> (ts: TokenStream)
    ensures
        tokens::stream_tokens(ts) == let_stmt(
            var@,
            match ty {
                Some(t) => Some(tokens::words(t@)),
                None => None,
            },
            tokens::stream_tokens(*value),
        ),
{
    let mut ts = tokens::words_stream("let");
    tokens::push_words(&mut ts, var);
    if let Some(t) = ty {
        tokens::push_words(&mut ts, ":");
        tokens::push_words(&mut ts, t);
    }
    tokens::push_words(&mut ts, "=");
    tokens::push_stream(&mut ts, value);
    tokens::push_words(&mut ts, ";");
    proof {
        let ty_view = match ty {
            Some(t) => Some(tokens::words(t@)),
            None => None,
        };
        assert(tokens::stream_tokens(ts) =~= let_stmt(
            var@,
            ty_view,
            tokens::stream_tokens(*value),
        ));
    }
    ts
}

fn emit_let_typed(var: &str, value: &TokenStream) -> (ts: TokenStream)
    ensures
        tokens::stream_tokens(ts) == let_typed(var@, tokens::stream_tokens(*value)),
{
    emit_let(var, Some("anchor_lang :: __alloc :: string :: String"), value)
}

fn emit_empty_string() -> (ts: TokenStream)
    ensures
        tokens::stream_tokens(ts) == empty_string(),
{
    let mut ts = tokens::words_stream("anchor_lang :: __alloc :: string :: String :: new");
    tokens::push_unit(&mut ts);
    ts
}

/// The format strings of the members.
proof fn lemma_member_templates<A>(a: A)
    ensures
        formats::template(address_pieces(a)) == ",\"address\":{}"@,
        formats::template(pda_pieces(a)) == ",\"pda\":{}"@,
        formats::template(shown_pieces(a)) == "{}"@,
{
    reveal_strlit(",\"address\":");
    reveal_strlit(",\"address\":{}");
    reveal_strlit(",\"pda\":");
    reveal_strlit(",\"pda\":{}");
    reveal_strlit("{}");
    formats::lemma_doubled_plain(",\"address\":"@);
    formats::lemma_doubled_plain(",\"pda\":"@);
    reveal_with_fuel(formats::template, 3);
    assert(formats::template(address_pieces(a)) =~= ",\"address\":{}"@);
    assert(formats::template(pda_pieces(a)) =~= ",\"pda\":{}"@);
    assert(formats::template(shown_pieces(a)) =~= "{}"@);
}

/// The format string of the entry.
pub proof fn lemma_entry_template<A>(f: AccountsJsonField, arg: spec_fn(EntryArg) -> A)
    ensures
        formats::template(entry_pieces(f, arg)) == "{{\"name\":\"{}\"{}{}{}{}{}{}{}}}"@,
{
    reveal_strlit("{\"name\":\"");
    reveal_strlit("\"");
    reveal_strlit("}");
    reveal_strlit("{{\"name\":\"{}\"{}{}{}{}{}{}{}}}");
    let open = "{\"name\":\""@;
    reveal_with_fuel(formats::doubled, 10);
    assert(formats::doubled("\""@) =~= seq!['"']);
    assert(formats::doubled("}"@) =~= seq!['}', '}']);
    assert(formats::doubled(open) =~= seq!['{', '{', '"', 'n', 'a', 'm', 'e', '"', ':', '"']);
    reveal_with_fuel(formats::template, 12);
    assert(formats::template(entry_pieces(f, arg)) =~= "{{\"name\":\"{}\"{}{}{}{}{}{}{}}}"@);
}

fn emit_address_format(address: TokenStream) -> (ts: TokenStream)
    ensures
        tokens::stream_tokens(ts) == address_format(tokens::stream_tokens(address)),
{
    let mut text = tokens::words_stream("anchor_lang :: idl_build :: __idl_json_string");
    tokens::push_group(&mut text, Delim::Paren, address);
    let ghost pieces = address_pieces(tokens::stream_tokens(text));
    let mut args: Vec<TokenStream> = Vec::new();
    args.push(text);
    proof {
        lemma_member_templates(tokens::stream_tokens(text));
        reveal_with_fuel(formats::are_args, 3);
    }
    formats::emit_format(",\"address\":{}", args, true, Ghost(pieces))
}

fn emit_account_type_const(ty: &Type, constant: &str) -> (ts: TokenStream)
    ensures
        tokens::stream_tokens(ts) == account_type_const(
            tokens::stream_tokens(ty.tokens),
            constant@,
        ),
{
    let mut ts = tokens::words_stream("<");
    tokens::push_stream(&mut ts, &ty.tokens);
    tokens::push_words(&mut ts, "as anchor_lang :: IdlAccountType > ::");
    tokens::push_words(&mut ts, constant);
    ts
}

fn emit_address_from_expr(expr: &TokenStream) -> (ts: TokenStream)
    ensures
        tokens::stream_tokens(ts) == address_from_expr(tokens::stream_tokens(*expr)),
{
    let mut arg = tokens::stream_new();
    tokens::push_stream(&mut arg, expr);
    assert(tokens::stream_tokens(arg) =~= tokens::stream_tokens(*expr));
    let mut args: Vec<TokenStream> = Vec::new();
    args.push(tokens::words_stream("__addr"));
    let ghost pieces = shown_pieces(tokens::words("__addr"@));
    proof {
        lemma_member_templates(tokens::words("__addr"@));
        reveal_with_fuel(formats::are_args, 2);
    }
    let shown = formats::emit_format("{}", args, false, Ghost(pieces));
    let mut borrowed = tokens::words_stream("&");
    tokens::push_words(&mut borrowed, "__addr_string");
    let address = emit_address_format(borrowed);
    let mut into = tokens::words_stream(":: core :: convert :: Into :: into");
    tokens::push_group(&mut into, Delim::Paren, arg);
    let mut ts = emit_let("__addr", Some("anchor_lang :: Address"), &into);
    tokens::push_stream(&mut ts, &emit_let("__addr_string", None, &shown));
    tokens::push_stream(&mut ts, &emit_let_typed("__addr_json", &address));
    ts
}

fn emit_address_from_text(address: &str) -> (ts: TokenStream)
    ensures
        tokens::stream_tokens(ts) == address_from_text(address@),
{
    let value = emit_address_format(str_stream(address));
    emit_let_typed("__addr_json", &value)
}

fn emit_address_from_type(ty: &Type) -> (ts: TokenStream)
    ensures
        tokens::stream_tokens(ts) == address_from_type(tokens::stream_tokens(ty.tokens)),
{
    let mut arms = tokens::words_stream("Some");
    tokens::push_group(&mut arms, Delim::Paren, tokens::words_stream("a"));
    tokens::push_words(&mut arms, "=>");
    tokens::push_stream(&mut arms, &emit_address_format(tokens::words_stream("a")));
    tokens::push_words(&mut arms, ", None =>");
    tokens::push_stream(&mut arms, &emit_empty_string());
    tokens::push_words(&mut arms, ",");
    let mut value = tokens::words_stream("match");
    tokens::push_words(&mut value, "__addr");
    tokens::push_group(&mut value, Delim::Brace, arms);
    let constant = emit_account_type_const(ty, "__IDL_ADDRESS");
    let mut ts = emit_let("__addr", None, &constant);
    tokens::push_stream(&mut ts, &emit_let_typed("__addr_json", &value));
    ts
}

fn emit_address(f: &AccountsJsonField) -> (ts: TokenStream)
    ensures
        tokens::stream_tokens(ts) == address_stmts(address_source(*f)),
{
    match f.field_ty {
        Some(ty) => match (f.address_override_expr, f.address_override) {
            (Some(expr), _) => emit_address_from_expr(expr),
            (None, Some(address)) => emit_address_from_text(address),
            (None, None) => emit_address_from_type(ty),
        },
        None => match f.address_override {
            Some(address) => emit_address_from_text(address),
            None => emit_let_typed("__addr_json", &emit_empty_string()),
        },
    }
}

fn emit_pda(f: &AccountsJsonField) -> (ts: TokenStream)
    ensures
        tokens::stream_tokens(ts) == pda_stmt(pda_code(*f)),
{
    let value = match &f.pda_json {
        Some(body) => {
            let mut args: Vec<TokenStream> = Vec::new();
            args.push(tokens::words_stream("__body"));
            let ghost pieces = pda_pieces(tokens::words("__body"@));
            proof {
                lemma_member_templates(tokens::words("__body"@));
                reveal_with_fuel(formats::are_args, 3);
            }
            let member = formats::emit_format(",\"pda\":{}", args, false, Ghost(pieces));
            let mut block = emit_let_typed("__body", body);
            tokens::push_stream(&mut block, &member);
            let mut value = tokens::stream_new();
            tokens::push_group(&mut value, Delim::Brace, block);
            assert(tokens::stream_tokens(value) =~= tokens::group(
                Delim::Brace,
                tokens::stream_tokens(block),
            ));
            value
        },
        None => emit_empty_string(),
    };
    emit_let_typed("__pda_json", &value)
}

fn emit_entry_format(f: &AccountsJsonField) -> (ts: TokenStream)
    ensures
        tokens::stream_tokens(ts) == entry_format(*f),
{
    let relations = relations_literal(&f.relations);
    let lines = docs_literal(f.docs);
    let signer = match f.field_ty {
        Some(_) => tokens::words_stream("__signer_json"),
        None => str_stream(flag_literal(f.init_signer, ",\"signer\":true")),
    };
    let mut args: Vec<TokenStream> = Vec::new();
    args.push(str_stream(f.name));
    args.push(str_stream(flag_literal(f.writable, ",\"writable\":true")));
    args.push(signer);
    args.push(tokens::words_stream("__addr_json"));
    args.push(str_stream(flag_literal(f.is_optional, ",\"optional\":true")));
    args.push(str_stream(relations.as_str()));
    args.push(str_stream(lines.as_str()));
    args.push(tokens::words_stream("__pda_json"));
    let ghost arg = |arg: EntryArg| entry_arg_tokens(arg);
    let ghost pieces = entry_pieces(*f, arg);
    proof {
        lemma_entry_template(*f, arg);
        reveal_with_fuel(formats::are_args, 12);
        assert(formats::are_args(args@, pieces));
    }
    formats::emit_format("{{\"name\":\"{}\"{}{}{}{}{}{}{}}}", args, true, Ghost(pieces))
}

fn emit_signer(ty: &Type, init_signer: bool) -> (ts: TokenStream)
    ensures
        tokens::stream_tokens(ts) == signer_stmts(tokens::stream_tokens(ty.tokens), init_signer),
{
    let flag = if init_signer { "true" } else { "false" };
    let set = flag_literal(true, ",\"signer\":true");
    let unset = flag_literal(false, ",\"signer\":true");
    let mut signer = emit_account_type_const(ty, "__IDL_IS_SIGNER");
    tokens::push_words(&mut signer, "||");
    tokens::push_words(&mut signer, flag);
    let mut choice = tokens::words_stream("if");
    tokens::push_words(&mut choice, "__signer");
    tokens::push_group(&mut choice, Delim::Brace, str_stream(set));
    tokens::push_words(&mut choice, "else");
    tokens::push_group(&mut choice, Delim::Brace, str_stream(unset));
    let mut ts = emit_let("__signer", None, &signer);
    tokens::push_stream(&mut ts, &emit_let("__signer_json", Some("& str"), &choice));
    ts
}

fn emit_len_call(var: &str) -> (ts: TokenStream)
    ensures
        tokens::stream_tokens(ts) == len_call(var@),
{
    let mut ts = tokens::words_stream(var);
    tokens::push_words(&mut ts, ". len");
    tokens::push_unit(&mut ts);
    ts
}

fn emit_byte_test(test: ByteTest) -> (ts: TokenStream)
    ensures
        tokens::stream_tokens(ts) == byte_test_tokens(test),
{
    match test {
        ByteTest::AtLeast(n) => {
            let mut ts = emit_len_call("__bytes");
            tokens::push_words(&mut ts, ">=");
            tokens::push_number_literal(&mut ts, n);
            ts
        },
        ByteTest::First(byte) => {
            let mut ts = tokens::words_stream("__bytes");
            tokens::push_group(&mut ts, Delim::Bracket, number_stream(0));
            tokens::push_words(&mut ts, "==");
            tokens::push_byte_literal(&mut ts, byte);
            ts
        },
        ByteTest::Last(byte) => {
            let mut last = emit_len_call("__bytes");
            tokens::push_words(&mut last, "-");
            tokens::push_number_literal(&mut last, 1);
            let mut ts = tokens::words_stream("__bytes");
            tokens::push_group(&mut ts, Delim::Bracket, last);
            tokens::push_words(&mut ts, "==");
            tokens::push_byte_literal(&mut ts, byte);
            ts
        },
    }
}

fn emit_bracket_tests() -> (ts: TokenStream)
    ensures
        tokens::stream_tokens(ts) == byte_tests_tokens(bracket_tests()),
{
    let mut ts = emit_byte_test(ByteTest::AtLeast(2));
    tokens::push_words(&mut ts, "&&");
    tokens::push_stream(&mut ts, &emit_byte_test(ByteTest::First(91)));
    tokens::push_words(&mut ts, "&&");
    tokens::push_stream(&mut ts, &emit_byte_test(ByteTest::Last(93)));
    proof {
        reveal_with_fuel(byte_tests_tokens, 3);
    }
    ts
}

fn emit_nested(inner: &Type) -> (ts: TokenStream)
    ensures
        tokens::stream_tokens(ts) == nested_part(tokens::stream_tokens(inner.tokens)),
{
    let mut range = number_stream(BRACKET_LEN);
    tokens::push_words(&mut range, "..");
    tokens::push_stream(&mut range, &emit_len_call("__inner"));
    tokens::push_words(&mut range, "-");
    tokens::push_number_literal(&mut range, BRACKET_LEN);
    let mut stripped = tokens::words_stream("__inner");
    tokens::push_group(&mut stripped, Delim::Bracket, range);
    tokens::push_words(&mut stripped, ". to_string");
    tokens::push_unit(&mut stripped);

    let mut list = tokens::words_stream("<");
    tokens::push_stream(&mut list, &inner.tokens);
    tokens::push_words(&mut list, "> :: __idl_accounts");
    tokens::push_unit(&mut list);
    let mut bytes = tokens::words_stream("__inner");
    tokens::push_words(&mut bytes, ". as_bytes");
    tokens::push_unit(&mut bytes);
    let mut choice = tokens::words_stream("if");
    tokens::push_stream(&mut choice, &emit_bracket_tests());
    tokens::push_group(&mut choice, Delim::Brace, stripped);
    tokens::push_words(&mut choice, "else");
    tokens::push_group(&mut choice, Delim::Brace, tokens::words_stream("__inner"));
    let mut body = emit_let("__inner", None, &list);
    tokens::push_stream(&mut body, &emit_let("__bytes", None, &bytes));
    tokens::push_stream(&mut body, &choice);
    let mut ts = tokens::stream_new();
    tokens::push_group(&mut ts, Delim::Brace, body);
    assert(tokens::stream_tokens(ts) =~= nested_part(tokens::stream_tokens(inner.tokens)));
    ts
}

fn emit_lets(f: &AccountsJsonField) -> (ts: TokenStream)
    ensures
        tokens::stream_tokens(ts) == lets_tokens(let_steps(*f)),
{
    let mut ts = match f.field_ty {
        Some(ty) => emit_signer(ty, f.init_signer),
        None => tokens::stream_new(),
    };
    tokens::push_stream(&mut ts, &emit_address(f));
    tokens::push_stream(&mut ts, &emit_pda(f));
    proof {
        reveal_with_fuel(lets_tokens, 4);
        assert(tokens::stream_tokens(ts) =~= lets_tokens(let_steps(*f)));
    }
    ts
}

fn emit_field(f: &AccountsJsonField) -> (ts: TokenStream)
    ensures
        tokens::stream_tokens(ts) == field_part(*f),
{
    if let Some(inner) = f.nested_inner_ty {
        return emit_nested(inner);
    }
    let mut body = emit_lets(f);
    tokens::push_stream(&mut body, &emit_entry_format(f));
    let mut ts = tokens::stream_new();
    tokens::push_group(&mut ts, Delim::Brace, body);
    assert(tokens::stream_tokens(ts) =~= tokens::group(Delim::Brace, tokens::stream_tokens(body)));
    ts
}

// ---------------------------------------------------------------------------
// The whole function
// ---------------------------------------------------------------------------

/// The blocks of the fields, separated by commas.
pub open spec fn field_parts(fields: Seq<AccountsJsonField>) -> Seq<Token>
    decreases fields.len(),
{
    if fields.len() == 0 {
        Seq::empty()
    } else if fields.len() == 1 {
        field_part(fields[0])
    } else {
        field_parts(fields.drop_last()) + tokens::words(","@) + field_part(fields.last())
    }
}

/// `#[doc = "line"]`
pub open spec fn doc_attr(line: Seq<char>) -> Seq<Token> {
    tokens::words("#"@) + tokens::group(
        Delim::Bracket,
        tokens::words("doc ="@) + seq![Token::Str(line)],
    )
}

/// The attributes of the generated function.
pub open spec fn accounts_fn_attrs() -> Seq<Token> {
    doc_attr(" **Opaque / unstable.** Returns the IDL JSON for this Accounts"@) + doc_attr(
        " struct's account list. Implementation detail of the IDL build"@,
    ) + doc_attr(" pipeline; do not rely on the shape or call this directly."@) + tokens::words(
        "#"@,
    ) + tokens::group(
        Delim::Bracket,
        tokens::words("doc"@) + tokens::group(Delim::Paren, tokens::words("hidden"@)),
    )
}

/// The body of the generated function.
///
/// ```text
/// let __parts: anchor_lang::__alloc::vec::Vec<
///     anchor_lang::__alloc::string::String
/// > = anchor_lang::__alloc::vec![<parts>];
/// let mut __s = anchor_lang::__alloc::string::String::from("[");
/// <loop>
/// __s.push(']');
/// __s
/// ```
///
/// The loop skips an empty entry, which a nested struct without fields has.
pub open spec fn accounts_body(fields: Seq<AccountsJsonField>) -> Seq<Token> {
    let_stmt(
        "__parts"@,
        Some(
            tokens::words(
                "anchor_lang :: __alloc :: vec :: Vec < anchor_lang :: __alloc :: string :: String >"@,
            ),
        ),
        tokens::words("anchor_lang :: __alloc :: vec !"@) + tokens::group(
            Delim::Bracket,
            field_parts(fields),
        ),
    ) + pushes::let_string("__s"@, "["@) + pushes::join_loop(true, "__p"@, "__parts"@)
        + pushes::push_char("__s"@, ']') + tokens::words("__s"@)
}

/// `pub fn __idl_accounts() -> anchor_lang::__alloc::string::String { body }`
pub open spec fn accounts_fn(fields: Seq<AccountsJsonField>) -> Seq<Token> {
    accounts_fn_attrs() + tokens::words("pub fn __idl_accounts"@) + tokens::group(
        Delim::Paren,
        Seq::empty(),
    ) + tokens::words("-> anchor_lang :: __alloc :: string :: String"@) + tokens::group(
        Delim::Brace,
        accounts_body(fields),
    )
}

fn emit_doc_attr(line: &str) -> (ts: TokenStream)
    ensures
        tokens::stream_tokens(ts) == doc_attr(line@),
{
    let mut inner = tokens::words_stream("doc =");
    tokens::push_str_literal(&mut inner, line);
    let mut ts = tokens::words_stream("#");
    tokens::push_group(&mut ts, Delim::Bracket, inner);
    ts
}

fn emit_accounts_fn_attrs() -> (ts: TokenStream)
    ensures
        tokens::stream_tokens(ts) == accounts_fn_attrs(),
{
    let mut hidden = tokens::words_stream("doc");
    tokens::push_group(&mut hidden, Delim::Paren, tokens::words_stream("hidden"));
    let second = emit_doc_attr(" struct's account list. Implementation detail of the IDL build");
    let third = emit_doc_attr(" pipeline; do not rely on the shape or call this directly.");
    let mut ts = emit_doc_attr(" **Opaque / unstable.** Returns the IDL JSON for this Accounts");
    tokens::push_stream(&mut ts, &second);
    tokens::push_stream(&mut ts, &third);
    tokens::push_words(&mut ts, "#");
    tokens::push_group(&mut ts, Delim::Bracket, hidden);
    ts
}

fn emit_field_parts(fields: &[AccountsJsonField<'_>]) -> (ts: TokenStream)
    ensures
        tokens::stream_tokens(ts) == field_parts(fields@),
{
    let mut ts = tokens::stream_new();
    let mut i: usize = 0;
    assert(fields@.take(0) =~= Seq::empty());
    while i < fields.len()
        invariant
            i <= fields@.len(),
            tokens::stream_tokens(ts) == field_parts(fields@.take(i as int)),
        decreases fields@.len() - i,
    {
        let ghost before = tokens::stream_tokens(ts);
        if i > 0 {
            tokens::push_words(&mut ts, ",");
        }
        tokens::push_stream(&mut ts, &emit_field(&fields[i]));
        i = i + 1;
        proof {
            let taken = fields@.take(i as int);
            assert(taken.drop_last() =~= fields@.take(i - 1));
            assert(taken.last() == fields@[i - 1]);
            if i == 1 {
                assert(tokens::stream_tokens(ts) =~= field_part(fields@[0]));
            }
        }
    }
    assert(fields@.take(i as int) =~= fields@);
    ts
}

/// The function `__idl_accounts` of an accounts struct, which assembles the
/// JSON of its account list.
///
/// Signer and address of an account are constants of its type and not visible
/// here, so the text is put together when the IDL is built. The flags that are
/// known already are part of the literals.
pub fn build_accounts_emission(fields: &[AccountsJsonField<'_>]) -> (ts: TokenStream)
    ensures
        tokens::stream_tokens(ts) == accounts_fn(fields@),
        forall|build: Build|
            code::accounts_fn_returns(
                tokens::stream_tokens(ts),
                build,
                Data::Text(#[trigger] entries::given_list(fields@, build)),
            ),
{
    let mut items = tokens::words_stream("anchor_lang :: __alloc :: vec !");
    tokens::push_group(&mut items, Delim::Bracket, emit_field_parts(fields));
    let ty = "anchor_lang :: __alloc :: vec :: Vec < anchor_lang :: __alloc :: string :: String >";
    let mut body = emit_let("__parts", Some(ty), &items);
    pushes::emit_let_string(&mut body, "__s", "[");
    pushes::emit_join_loop(&mut body, true, "__p", "__parts");
    pushes::emit_push_char(&mut body, "__s", ']');
    tokens::push_words(&mut body, "__s");
    let mut ts = emit_accounts_fn_attrs();
    tokens::push_words(&mut ts, "pub fn __idl_accounts");
    tokens::push_unit(&mut ts);
    tokens::push_words(&mut ts, "-> anchor_lang :: __alloc :: string :: String");
    tokens::push_group(&mut ts, Delim::Brace, body);
    proof {
        assert(tokens::stream_tokens(ts) == accounts_fn(fields@));
        assert forall|build: Build|
            code::accounts_fn_returns(
                tokens::stream_tokens(ts),
                build,
                Data::Text(#[trigger] entries::given_list(fields@, build)),
            ) by {
            entries::law_accounts_code_evaluates_to_the_list(fields@, build);
        }
    }
    ts
}

/// An address that is given on the field goes before the one that the type
/// knows: it does not depend on the type.
pub proof fn law_address_override_takes_precedence(f: AccountsJsonField, g: AccountsJsonField)
    requires
        f.field_ty is Some,
        g.field_ty is Some,
        f.address_override == g.address_override,
        f.address_override_expr == g.address_override_expr,
        f.address_override is Some || f.address_override_expr is Some,
    ensures
        address_source(f) == address_source(g),
{
}

} // verus!
