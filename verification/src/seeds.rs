//! Classification of PDA seeds, and the `pda` objects made of them.

use crate::discriminators;
use crate::json::{self, Json};
use crate::syntax::{Expr, ExprShape, Lit};
use crate::text;
use crate::tokens::{self, Delim, Token};
use crate::walk::{self, Query};
use proc_macro2::TokenStream;
use serde_json::Value;
use vstd::prelude::*;
use vstd::string::*;

verus! {

// ---------------------------------------------------------------------------
// Reading seed expressions
// ---------------------------------------------------------------------------

/// The expression behind its `&`s.
pub open spec fn unreferenced(e: Expr) -> Expr
    decreases e,
{
    match e.shape {
        ExprShape::Reference(inner) => unreferenced(*inner),
        _ => e,
    }
}

/// The expression behind its `&`s and parentheses.
pub open spec fn unwrapped(e: Expr) -> Expr
    decreases e,
{
    match e.shape {
        ExprShape::Paren(inner) => unwrapped(*inner),
        ExprShape::Reference(inner) => unwrapped(*inner),
        _ => e,
    }
}

/// The name that the expression consists of, if it is a single one.
pub open spec fn bare_name(e: Expr) -> Option<Seq<char>> {
    match unwrapped(e).shape {
        ExprShape::Path(p) => p.bare(),
        _ => None,
    }
}

/// `receiver` of `receiver.method()`.
pub open spec fn receiver(e: Expr, method: Seq<char>) -> Option<Expr> {
    match unwrapped(e).shape {
        ExprShape::MethodCall(receiver, name, args) => if name@ == method && args@.len() == 0 {
            Some(*receiver)
        } else {
            None
        },
        _ => None,
    }
}

/// `root` of `root`, `root.as_ref()`, `root.address()`, `root.key()`,
/// `root.address().as_ref()` and `root.key().as_ref()`.
pub open spec fn account_root(e: Expr) -> Option<Seq<char>> {
    let inner = match receiver(e, "as_ref"@) {
        Some(r) => r,
        None => e,
    };
    if bare_name(e) is Some {
        bare_name(e)
    } else if bare_name(inner) is Some {
        bare_name(inner)
    } else {
        match (receiver(inner, "address"@), receiver(inner, "key"@)) {
            (Some(r), _) => bare_name(r),
            (None, Some(r)) => bare_name(r),
            (None, None) => None,
        }
    }
}

/// `root` of `root`, `root.as_ref()` and `root.to_le_bytes()`.
pub open spec fn arg_root(e: Expr) -> Option<Seq<char>> {
    if bare_name(e) is Some {
        bare_name(e)
    } else {
        match (receiver(e, "as_ref"@), receiver(e, "to_le_bytes"@)) {
            (Some(r), _) => bare_name(r),
            (None, Some(r)) => bare_name(r),
            (None, None) => None,
        }
    }
}

/// The string of `"string".as_bytes()`.
pub open spec fn as_bytes_literal(e: Expr) -> Option<Seq<char>> {
    match receiver(e, "as_bytes"@) {
        Some(r) => match unwrapped(r).shape {
            ExprShape::Lit(Lit::Str(s)) => Some(s@),
            _ => None,
        },
        None => None,
    }
}

/// The bytes of integer literals that are all bytes.
pub open spec fn byte_items(items: Seq<Expr>) -> Option<Seq<u8>>
    decreases items.len(),
{
    if items.len() == 0 {
        Some(Seq::empty())
    } else {
        match (byte_items(items.drop_last()), items.last().shape) {
            (Some(front), ExprShape::Lit(Lit::Int(digits))) => match text::parsed_number(
                digits@,
                255,
            ) {
                Some(n) => Some(front.push(n as u8)),
                None => None,
            },
            _ => None,
        }
    }
}

/// The bytes of a byte string, a string, a byte or an array of bytes.
pub open spec fn literal_bytes(e: Expr) -> Option<Seq<u8>> {
    match e.shape {
        ExprShape::Lit(Lit::ByteStr(bytes)) => Some(bytes@),
        ExprShape::Lit(Lit::Str(s)) => Some(vstd::utf8::encode_utf8(s@)),
        ExprShape::Lit(Lit::Byte(b)) => Some(seq![b]),
        ExprShape::Array(items) => byte_items(items@),
        _ => None,
    }
}

// ---------------------------------------------------------------------------
// Seeds in the IDL
// ---------------------------------------------------------------------------

/// `{"kind":"const","value":bytes}`.
pub open spec fn const_seed(bytes: Seq<u8>) -> Json {
    Json::Object(
        seq![("kind"@, Json::Text("const"@)), ("value"@, discriminators::bytes_json(bytes))],
    )
}

/// `{"kind":"account","path":path}`.
pub open spec fn account_seed(path: Seq<char>) -> Json {
    Json::Object(seq![("kind"@, Json::Text("account"@)), ("path"@, Json::Text(path))])
}

/// `{"kind":"arg","path":path}`.
pub open spec fn arg_seed(path: Seq<char>) -> Json {
    Json::Object(seq![("kind"@, Json::Text("arg"@)), ("path"@, Json::Text(path))])
}

/// The IDL form of a seed whose shape is recognized.
pub open spec fn static_seed_json(e: Expr, fields: Seq<String>, args: Seq<String>) -> Option<Json> {
    let e = unreferenced(e);
    if literal_bytes(e) is Some {
        Some(const_seed(literal_bytes(e)->0))
    } else if account_root(e) is Some && text::lists(fields, account_root(e)->0) {
        Some(account_seed(account_root(e)->0))
    } else if arg_root(e) is Some && text::lists(args, arg_root(e)->0) {
        Some(arg_seed(arg_root(e)->0))
    } else if as_bytes_literal(e) is Some {
        Some(const_seed(vstd::utf8::encode_utf8(as_bytes_literal(e)->0)))
    } else {
        None
    }
}

/// A classified seed expression. Only the supported shapes reach the IDL:
/// those that are statically known are `Static`, constant expressions are
/// `Runtime`, and expressions over runtime-only values are `Unsupported` and
/// left out.
pub enum SeedJson {
    /// A serialized JSON object.
    Static(String),
    /// A token expression that evaluates to a `String` when the IDL is built.
    Runtime(TokenStream),
    /// The expression depends on values that exist only at runtime and cannot
    /// be represented in the IDL.
    Unsupported,
}

pub enum SeedListJson {
    /// One JSON object for each seed.
    Listed(Vec<SeedJson>),
    /// A token expression that evaluates to the whole JSON array of seeds,
    /// brackets included, when the IDL is built.
    Runtime(TokenStream),
}

/// What a classified seed holds.
pub enum SeedView {
    Static(Seq<char>),
    Runtime(Seq<Token>),
    Unsupported,
}

/// What a classified list of seeds holds.
pub enum SeedListView {
    Listed(Seq<SeedView>),
    Runtime(Seq<Token>),
}

impl View for SeedJson {
    type V = SeedView;

    open spec fn view(&self) -> SeedView {
        match self {
            SeedJson::Static(s) => SeedView::Static(s@),
            SeedJson::Runtime(ts) => SeedView::Runtime(tokens::stream_tokens(*ts)),
            SeedJson::Unsupported => SeedView::Unsupported,
        }
    }
}

pub open spec fn seed_views(seeds: Seq<SeedJson>) -> Seq<SeedView> {
    Seq::new(seeds.len(), |i: int| seeds[i]@)
}

impl View for SeedListJson {
    type V = SeedListView;

    open spec fn view(&self) -> SeedListView {
        match self {
            SeedListJson::Listed(seeds) => SeedListView::Listed(seed_views(seeds@)),
            SeedListJson::Runtime(ts) => SeedListView::Runtime(tokens::stream_tokens(*ts)),
        }
    }
}

impl Clone for SeedJson {
    fn clone(&self) -> (copy: Self)
        ensures
            copy@ == self@,
    {
        match self {
            SeedJson::Static(s) => SeedJson::Static(s.as_str().to_owned()),
            SeedJson::Runtime(other) => {
                let mut ts = tokens::stream_new();
                tokens::push_stream(&mut ts, other);
                assert(tokens::stream_tokens(ts) =~= tokens::stream_tokens(*other));
                SeedJson::Runtime(ts)
            },
            SeedJson::Unsupported => SeedJson::Unsupported,
        }
    }
}

impl Clone for SeedListJson {
    fn clone(&self) -> (copy: Self)
        ensures
            copy@ == self@,
    {
        match self {
            SeedListJson::Listed(list) => {
                let mut seeds: Vec<SeedJson> = Vec::new();
                let mut i: usize = 0;
                while i < list.len()
                    invariant
                        i <= list@.len(),
                        seeds@.len() == i,
                        forall|k: int| 0 <= k < i ==> (#[trigger] seeds@[k])@ == list@[k]@,
                    decreases list@.len() - i,
                {
                    seeds.push(list[i].clone());
                    i = i + 1;
                }
                assert(seed_views(seeds@) =~= seed_views(list@));
                SeedListJson::Listed(seeds)
            },
            SeedListJson::Runtime(other) => {
                let mut ts = tokens::stream_new();
                tokens::push_stream(&mut ts, other);
                assert(tokens::stream_tokens(ts) =~= tokens::stream_tokens(*other));
                SeedListJson::Runtime(ts)
            },
        }
    }
}

/// `anchor_lang::idl_build::__idl_const_seed_json(expr)`.
pub open spec fn runtime_seed_tokens(e: Expr) -> Seq<Token> {
    tokens::words("anchor_lang :: idl_build :: __idl_const_seed_json"@) + tokens::group(
        Delim::Paren,
        tokens::stream_tokens(e.tokens),
    )
}

/// `anchor_lang::idl_build::__idl_const_seeds_json(expr)`.
pub open spec fn runtime_seeds_tokens(e: Expr) -> Seq<Token> {
    tokens::words("anchor_lang :: idl_build :: __idl_const_seeds_json"@) + tokens::group(
        Delim::Paren,
        tokens::stream_tokens(e.tokens),
    )
}

/// The class of a seed expression.
pub open spec fn classified(e: Expr, fields: &[String], args: &[String]) -> SeedView {
    if static_seed_json(e, fields@, args@) is Some {
        SeedView::Static(json::json_text(static_seed_json(e, fields@, args@)->0))
    } else if Query::Input(fields, args).found_in(e) {
        SeedView::Unsupported
    } else {
        SeedView::Runtime(runtime_seed_tokens(e))
    }
}

/// The class of a program; `None` if it cannot be represented.
pub open spec fn classified_program(e: Expr, fields: &[String], args: &[String]) -> Option<
    SeedView,
> {
    match classified(e, fields, args) {
        SeedView::Unsupported => None,
        other => Some(other),
    }
}

/// The name that a simple seed expression is about.
pub open spec fn root_name(e: Expr) -> Option<Seq<char>> {
    if account_root(e) is Some {
        account_root(e)
    } else {
        arg_root(e)
    }
}

/// The class of a list of seeds; `None` if one of them cannot be represented.
pub open spec fn classified_list(e: Expr, fields: &[String], args: &[String]) -> Option<
    SeedListView,
> {
    match e.shape {
        ExprShape::Array(items) => if forall|i: int|
            0 <= i < items@.len() ==> classified(#[trigger] items@[i], fields, args)
                != SeedView::Unsupported {
            Some(
                SeedListView::Listed(
                    Seq::new(items@.len(), |i: int| classified(items@[i], fields, args)),
                ),
            )
        } else {
            None
        },
        _ => if Query::Input(fields, args).found_in(e) {
            None
        } else {
            Some(SeedListView::Runtime(runtime_seeds_tokens(e)))
        },
    }
}

// ---------------------------------------------------------------------------
// Classification
// ---------------------------------------------------------------------------

fn peel_references(expr: &Expr) -> (inner: &Expr)
    ensures
        *inner == unreferenced(*expr),
    decreases expr,
{
    match &expr.shape {
        ExprShape::Reference(inner) => peel_references(inner),
        _ => expr,
    }
}

fn peel_seed_wrappers(expr: &Expr) -> (inner: &Expr)
    ensures
        *inner == unwrapped(*expr),
    decreases expr,
{
    match &expr.shape {
        ExprShape::Paren(inner) => peel_seed_wrappers(inner),
        ExprShape::Reference(inner) => peel_seed_wrappers(inner),
        _ => expr,
    }
}

fn bare_ident(expr: &Expr) -> (name: Option<&String>)
    ensures
        name matches Some(s) ==> bare_name(*expr) == Some(s@),
        name is None ==> bare_name(*expr) is None,
{
    match &peel_seed_wrappers(expr).shape {
        ExprShape::Path(path) => path.bare_name(),
        _ => None,
    }
}

fn method_receiver<'a>(expr: &'a Expr, method: &str) -> (found: Option<&'a Expr>)
    ensures
        found matches Some(r) ==> receiver(*expr, method@) == Some(*r),
        found is None ==> receiver(*expr, method@) is None,
{
    match &peel_seed_wrappers(expr).shape {
        ExprShape::MethodCall(receiver, name, args) => {
            if text::str_eq(name.as_str(), method) && args.len() == 0 {
                Some(receiver)
            } else {
                None
            }
        },
        _ => None,
    }
}

fn account_seed_root_ident(expr: &Expr) -> (root: Option<&String>)
    ensures
        root matches Some(s) ==> account_root(*expr) == Some(s@),
        root is None ==> account_root(*expr) is None,
{
    if let Some(root) = bare_ident(expr) {
        return Some(root);
    }
    let inner = match method_receiver(expr, "as_ref") {
        Some(receiver) => receiver,
        None => expr,
    };
    if let Some(root) = bare_ident(inner) {
        return Some(root);
    }
    match method_receiver(inner, "address") {
        Some(receiver) => bare_ident(receiver),
        None => match method_receiver(inner, "key") {
            Some(receiver) => bare_ident(receiver),
            None => None,
        },
    }
}

fn arg_seed_root_ident(expr: &Expr) -> (root: Option<&String>)
    ensures
        root matches Some(s) ==> arg_root(*expr) == Some(s@),
        root is None ==> arg_root(*expr) is None,
{
    if let Some(root) = bare_ident(expr) {
        return Some(root);
    }
    match method_receiver(expr, "as_ref") {
        Some(receiver) => bare_ident(receiver),
        None => match method_receiver(expr, "to_le_bytes") {
            Some(receiver) => bare_ident(receiver),
            None => None,
        },
    }
}

/// The bare root identifier of a simple seed expression that clients can
/// derive. Chains of fields and indices are not followed:
/// `account.data.to_le_bytes()` is data of the account, not its key.
pub fn receiver_root_ident_str(expr: &Expr) -> (root: Option<String>)
    ensures
        match root {
            Some(s) => s@ == (if account_root(*expr) is Some {
                account_root(*expr)->0
            } else {
                arg_root(*expr)->0
            }) && (account_root(*expr) is Some || arg_root(*expr) is Some),
            None => account_root(*expr) is None && arg_root(*expr) is None,
        },
        match root {
            Some(s) => root_name(*expr) == Some(s@),
            None => root_name(*expr) is None,
        },
{
    if let Some(root) = account_seed_root_ident(expr) {
        return Some(root.as_str().to_owned());
    }
    match arg_seed_root_ident(expr) {
        Some(root) => Some(root.as_str().to_owned()),
        None => None,
    }
}

fn string_as_bytes(expr: &Expr) -> (literal: Option<&String>)
    ensures
        literal matches Some(s) ==> as_bytes_literal(*expr) == Some(s@),
        literal is None ==> as_bytes_literal(*expr) is None,
{
    match method_receiver(expr, "as_bytes") {
        Some(receiver) => match &peel_seed_wrappers(receiver).shape {
            ExprShape::Lit(Lit::Str(s)) => Some(s),
            _ => None,
        },
        None => None,
    }
}

fn const_seed_value(bytes: &[u8]) -> (value: Value)
    ensures
        json::value_text(value) == json::json_text(const_seed(bytes@)),
{
    let ghost doc = seq![
        ("kind"@, Json::Text("const"@)),
        ("value"@, discriminators::bytes_json(bytes@)),
    ];
    json::object_json(
        vec![
            ("kind", json::text_json("const")),
            ("value", discriminators::disc_json_value(bytes)),
        ],
        Ghost(doc),
    )
}

fn account_seed_value(path: &str) -> (value: Value)
    ensures
        json::value_text(value) == json::json_text(account_seed(path@)),
{
    let ghost doc = seq![("kind"@, Json::Text("account"@)), ("path"@, Json::Text(path@))];
    json::object_json(
        vec![("kind", json::text_json("account")), ("path", json::text_json(path))],
        Ghost(doc),
    )
}

fn arg_seed_value(path: &str) -> (value: Value)
    ensures
        json::value_text(value) == json::json_text(arg_seed(path@)),
{
    let ghost doc = seq![("kind"@, Json::Text("arg"@)), ("path"@, Json::Text(path@))];
    json::object_json(
        vec![("kind", json::text_json("arg")), ("path", json::text_json(path))],
        Ghost(doc),
    )
}

fn static_seed(value: Value) -> (seed: SeedJson)
    ensures
        seed@ == SeedView::Static(json::value_text(value)),
{
    SeedJson::Static(json::value_to_string(&value))
}

fn runtime_seed(expr: &Expr) -> (seed: SeedJson)
    ensures
        seed@ == SeedView::Runtime(runtime_seed_tokens(*expr)),
{
    let mut arg = tokens::stream_new();
    tokens::push_stream(&mut arg, &expr.tokens);
    assert(tokens::stream_tokens(arg) =~= tokens::stream_tokens(expr.tokens));
    let mut ts = tokens::words_stream("anchor_lang :: idl_build :: __idl_const_seed_json");
    tokens::push_group(&mut ts, Delim::Paren, arg);
    SeedJson::Runtime(ts)
}

fn runtime_seeds(expr: &Expr) -> (ts: TokenStream)
    ensures
        tokens::stream_tokens(ts) == runtime_seeds_tokens(*expr),
{
    let mut arg = tokens::stream_new();
    tokens::push_stream(&mut arg, &expr.tokens);
    assert(tokens::stream_tokens(arg) =~= tokens::stream_tokens(expr.tokens));
    let mut ts = tokens::words_stream("anchor_lang :: idl_build :: __idl_const_seeds_json");
    tokens::push_group(&mut ts, Delim::Paren, arg);
    ts
}

proof fn lemma_byte_items_stop(items: Seq<Expr>, n: int)
    requires
        0 <= n <= items.len(),
        byte_items(items.take(n)) is None,
    ensures
        byte_items(items) is None,
    decreases items.len() - n,
{
    if n < items.len() {
        assert(items.take(n + 1).drop_last() =~= items.take(n));
        lemma_byte_items_stop(items, n + 1);
    } else {
        assert(items.take(n) =~= items);
    }
}

/// The bytes of the items, if they are all byte literals.
fn collect_byte_items(items: &Vec<Expr>) -> (bytes: Option<Vec<u8>>)
    ensures
        bytes matches Some(b) ==> byte_items(items@) == Some(b@),
        bytes is None ==> byte_items(items@) is None,
{
    let mut bytes: Vec<u8> = Vec::new();
    let mut i: usize = 0;
    assert(items@.take(0) =~= Seq::empty());
    while i < items.len()
        invariant
            i <= items@.len(),
            byte_items(items@.take(i as int)) == Some(bytes@),
        decreases items@.len() - i,
    {
        proof {
            assert(items@.take(i + 1).drop_last() =~= items@.take(i as int));
            assert(items@.take(i + 1).last() == items@[i as int]);
        }
        let item = match &items[i].shape {
            ExprShape::Lit(Lit::Int(digits)) => text::parse_number(digits.as_str(), 255),
            _ => None,
        };
        match item {
            Some(n) => {
                bytes.push(n as u8);
            },
            None => {
                proof {
                    lemma_byte_items_stop(items@, i + 1);
                }
                return None;
            },
        }
        i = i + 1;
    }
    assert(items@.take(i as int) =~= items@);
    Some(bytes)
}

/// The static seed of an expression whose shape is recognized.
fn classify_seed_inner(expr: &Expr, field_names: &[String], ix_arg_names: &[String]) -> (seed:
    Option<SeedJson>)
    ensures
        match static_seed_json(*expr, field_names@, ix_arg_names@) {
            Some(doc) => seed is Some && seed->0@ == SeedView::Static(json::json_text(doc)),
            None => seed is None,
        },
{
    let cur = peel_references(expr);
    match &cur.shape {
        ExprShape::Lit(Lit::ByteStr(bytes)) => {
            return Some(static_seed(const_seed_value(bytes.as_slice())));
        },
        ExprShape::Lit(Lit::Str(s)) => {
            return Some(static_seed(const_seed_value(s.as_str().as_bytes())));
        },
        ExprShape::Lit(Lit::Byte(b)) => {
            let bytes: Vec<u8> = vec![*b];
            assert(bytes@ =~= seq![*b]);
            return Some(static_seed(const_seed_value(bytes.as_slice())));
        },
        ExprShape::Array(items) => {
            if let Some(bytes) = collect_byte_items(items) {
                return Some(static_seed(const_seed_value(bytes.as_slice())));
            }
        },
        _ => {},
    }
    if let Some(root) = account_seed_root_ident(cur) {
        if text::contains_name(field_names, root.as_str()) {
            return Some(static_seed(account_seed_value(root.as_str())));
        }
    }
    if let Some(root) = arg_seed_root_ident(cur) {
        if text::contains_name(ix_arg_names, root.as_str()) {
            return Some(static_seed(arg_seed_value(root.as_str())));
        }
    }
    match string_as_bytes(cur) {
        Some(s) => Some(static_seed(const_seed_value(s.as_str().as_bytes()))),
        None => None,
    }
}

/// Classifies a seed expression.
///
/// Recognized shapes, which become `Static`:
/// - byte strings, strings, bytes, arrays of bytes and `"literal".as_bytes()`:
///   `{"kind":"const","value":[...]}`
/// - references to an account field (`user`, `user.as_ref()`,
///   `user.key().as_ref()`, `user.address().as_ref()`):
///   `{"kind":"account","path":"user"}`
/// - references to an instruction argument (`nonce`, `nonce.as_ref()`,
///   `nonce.to_le_bytes()`): `{"kind":"arg","path":"nonce"}`
///
/// Any other expression is evaluated when the IDL is built, unless it depends
/// on the value of an account field or an argument: then it is `Unsupported`.
/// The arguments of macro calls are not looked into.
pub fn classify_seed(expr: &Expr, field_names: &[String], ix_arg_names: &[String]) -> (seed:
    SeedJson)
    ensures
        seed@ == classified(*expr, field_names, ix_arg_names),
{
    if let Some(seed) = classify_seed_inner(expr, field_names, ix_arg_names) {
        seed
    } else if walk::expr_references_runtime_seed_inputs(expr, field_names, ix_arg_names) {
        SeedJson::Unsupported
    } else {
        runtime_seed(expr)
    }
}

/// Classifies the seeds of a PDA. An array is classified seed by seed, any
/// other expression as a whole. `None` tells that some seed cannot be
/// represented.
pub fn classify_seed_list(expr: &Expr, field_names: &[String], ix_arg_names: &[String]) -> (list:
    Option<SeedListJson>)
    ensures
        match list {
            Some(l) => classified_list(*expr, field_names, ix_arg_names) == Some(l@),
            None => classified_list(*expr, field_names, ix_arg_names) is None,
        },
{
    match &expr.shape {
        ExprShape::Array(items) => {
            let mut seeds: Vec<SeedJson> = Vec::new();
            let mut i: usize = 0;
            while i < items.len()
                invariant
                    i <= items@.len(),
                    seeds@.len() == i,
                    forall|k: int|
                        0 <= k < i ==> (#[trigger] seeds@[k])@ == classified(
                            items@[k],
                            field_names,
                            ix_arg_names,
                        ),
                    forall|k: int|
                        0 <= k < i ==> classified(#[trigger] items@[k], field_names, ix_arg_names)
                            != SeedView::Unsupported,
                    expr.shape == ExprShape::Array(*items),
                decreases items@.len() - i,
            {
                let seed = classify_seed(&items[i], field_names, ix_arg_names);
                if let SeedJson::Unsupported = &seed {
                    assert(classified(items@[i as int], field_names, ix_arg_names)
                        == SeedView::Unsupported);
                    return None;
                }
                seeds.push(seed);
                i = i + 1;
            }
            assert(seed_views(seeds@) =~= Seq::new(
                items@.len(),
                |i: int| classified(items@[i], field_names, ix_arg_names),
            ));
            Some(SeedListJson::Listed(seeds))
        },
        _ => {
            if walk::expr_references_runtime_seed_inputs(expr, field_names, ix_arg_names) {
                None
            } else {
                Some(SeedListJson::Runtime(runtime_seeds(expr)))
            }
        },
    }
}

/// Classifies `seeds::program = <expr>`. The expression is a program id, so
/// that an opaque one is evaluated when the IDL is built and becomes constant
/// bytes. `None` tells that it cannot be represented.
pub fn classify_program_seed(
    expr: &Expr,
    field_names: &[String],
    ix_arg_names: &[String],
) -> (seed: Option<SeedJson>)
    ensures
        match seed {
            Some(s) => s@ == classified(*expr, field_names, ix_arg_names) && s@
                != SeedView::Unsupported,
            None => classified(*expr, field_names, ix_arg_names) == SeedView::Unsupported,
        },
        match seed {
            Some(s) => classified_program(*expr, field_names, ix_arg_names) == Some(s@),
            None => classified_program(*expr, field_names, ix_arg_names) is None,
        },
{
    match classify_seed(expr, field_names, ix_arg_names) {
        SeedJson::Unsupported => None,
        other => Some(other),
    }
}

// ---------------------------------------------------------------------------
// Laws
// ---------------------------------------------------------------------------

/// A reference to an expression is recognized as the expression is.
pub proof fn law_references_are_transparent(e: Expr, fields: Seq<String>, args: Seq<String>)
    requires
        e.shape is Reference,
    ensures
        static_seed_json(e, fields, args) == static_seed_json(*e.shape->Reference_0, fields, args),
{
}

pub proof fn lemma_roots_are_no_literals(e: Expr)
    ensures
        account_root(e) is Some || arg_root(e) is Some ==> literal_bytes(e) is None,
{
    match e.shape {
        ExprShape::Lit(_) => {
            assert(unwrapped(e) == e);
        },
        ExprShape::Array(_) => {
            assert(unwrapped(e) == e);
        },
        _ => {},
    }
}

/// An expression that refers to an account field is an account seed, also
/// where an instruction argument has the same name.
pub proof fn law_fields_win_over_args(
    e: Expr,
    root: Seq<char>,
    fields: Seq<String>,
    args: Seq<String>,
)
    requires
        account_root(unreferenced(e)) == Some(root),
        text::lists(fields, root),
    ensures
        static_seed_json(e, fields, args) == Some(account_seed(root)),
{
    lemma_roots_are_no_literals(unreferenced(e));
}

/// A static seed is a constant, or the path of a known field or argument.
pub proof fn law_static_seeds_name_what_is_known(e: Expr, fields: Seq<String>, args: Seq<String>)
    ensures
        static_seed_json(e, fields, args) matches Some(j) ==> {
            ||| exists|bytes: Seq<u8>| j == const_seed(bytes)
            ||| exists|path: Seq<char>| text::lists(fields, path) && j == account_seed(path)
            ||| exists|path: Seq<char>| text::lists(args, path) && j == arg_seed(path)
        },
{
    let inner = unreferenced(e);
    if literal_bytes(inner) is Some {
        assert(static_seed_json(e, fields, args) == Some(const_seed(literal_bytes(inner)->0)));
    } else if account_root(inner) is Some && text::lists(fields, account_root(inner)->0) {
    } else if arg_root(inner) is Some && text::lists(args, arg_root(inner)->0) {
    } else if as_bytes_literal(inner) is Some {
        assert(static_seed_json(e, fields, args) == Some(
            const_seed(vstd::utf8::encode_utf8(as_bytes_literal(inner)->0)),
        ));
    }
}

/// A seed that is evaluated when the IDL is built mentions no field and no
/// argument, as far as its expressions show: the tokens inside a macro call are
/// not looked into.
pub proof fn law_runtime_seeds_are_constant(e: Expr, fields: &[String], args: &[String])
    requires
        classified(e, fields, args) is Runtime,
    ensures
        !Query::Input(fields, args).found_in(e),
{
}

/// Every seed can be emitted.
pub open spec fn all_supported(seeds: SeedListView) -> bool {
    seeds matches SeedListView::Listed(list) ==> forall|i: int|
        0 <= i < list.len() ==> #[trigger] list[i] != SeedView::Unsupported
}

/// A list that was classified holds only seeds that can be emitted.
pub proof fn law_classified_lists_are_supported(e: Expr, fields: &[String], args: &[String])
    ensures
        classified_list(e, fields, args) matches Some(list) ==> all_supported(list),
{
}


} // verus!
