//! The forms of seed expressions, and what each of them becomes.

use crate::discriminators;
use crate::json::{self, Json};
use crate::seeds::{self, SeedListView, SeedView};
use crate::syntax::{Expr, ExprPath, ExprShape, Lit, PathArguments};
use crate::text;
use crate::tokens::{self, Delim};
use crate::walk::Query;
use vstd::prelude::*;
use vstd::string::*;

verus! {

// ---------------------------------------------------------------------------
// Forms
// ---------------------------------------------------------------------------

/// The expression is `inner` behind any number of `&`s.
pub open spec fn refers_to(e: Expr, inner: Expr) -> bool
    decreases e,
{
    e == inner || match e.shape {
        ExprShape::Reference(next) => refers_to(*next, inner),
        _ => false,
    }
}

/// The expression is `inner` behind any number of `&`s and parentheses.
pub open spec fn wraps(e: Expr, inner: Expr) -> bool
    decreases e,
{
    e == inner || match e.shape {
        ExprShape::Reference(next) => wraps(*next, inner),
        ExprShape::Paren(next) => wraps(*next, inner),
        _ => false,
    }
}

/// The path is the name alone, without arguments.
pub open spec fn is_bare(p: ExprPath, name: Seq<char>) -> bool {
    &&& !p.qself
    &&& !p.path.leading_colon
    &&& p.path.segments@.len() == 1
    &&& match p.path.segments@[0].arguments {
        PathArguments::Absent => true,
        PathArguments::AngleBracketed(args) => args@.len() == 0,
        PathArguments::Parenthesized => false,
    }
    &&& p.path.segments@[0].ident@ == name
}

/// `name`
pub open spec fn is_name(e: Expr, name: Seq<char>) -> bool {
    exists|inner: Expr|
        #[trigger] wraps(e, inner) && inner.shape is Path && is_bare(inner.shape->Path_0, name)
}

/// `receiver.method()`
pub open spec fn calls(e: Expr, method: Seq<char>, receiver: Expr) -> bool {
    exists|inner: Expr|
        #[trigger] wraps(e, inner) && inner.shape is MethodCall && *inner.shape->MethodCall_0
            == receiver && inner.shape->MethodCall_1@ == method
            && inner.shape->MethodCall_2@.len() == 0
}

/// `name.key()` or `name.address()`
pub open spec fn is_key_of(e: Expr, name: Seq<char>) -> bool {
    exists|r: Expr| (calls(e, "key"@, r) || calls(e, "address"@, r)) && #[trigger] is_name(r, name)
}

/// `name`, its key, or one of these with `.as_ref()`
pub open spec fn is_account_form(e: Expr, name: Seq<char>) -> bool {
    ||| is_name(e, name)
    ||| is_key_of(e, name)
    ||| exists|r: Expr|
        #[trigger] calls(e, "as_ref"@, r) && (is_name(r, name) || is_key_of(r, name))
}

/// `name`, `name.as_ref()` or `name.to_le_bytes()`
pub open spec fn is_arg_form(e: Expr, name: Seq<char>) -> bool {
    ||| is_name(e, name)
    ||| exists|r: Expr|
        (calls(e, "as_ref"@, r) || calls(e, "to_le_bytes"@, r)) && #[trigger] is_name(r, name)
}

/// `"string".as_bytes()`
pub open spec fn is_bytes_of(e: Expr, s: Seq<char>) -> bool {
    exists|r: Expr, inner: Expr|
        calls(e, "as_bytes"@, r) && #[trigger] wraps(r, inner) && (inner.shape matches ExprShape::Lit(
            Lit::Str(t),
        ) && t@ == s)
}

/// A byte string, a string, a byte, or an array of integers that are bytes.
pub open spec fn is_literal(e: Expr, bytes: Seq<u8>) -> bool {
    match e.shape {
        ExprShape::Lit(Lit::ByteStr(b)) => b@ == bytes,
        ExprShape::Lit(Lit::Str(s)) => vstd::utf8::encode_utf8(s@) == bytes,
        ExprShape::Lit(Lit::Byte(b)) => bytes == seq![b],
        ExprShape::Array(items) => items@.len() == bytes.len() && forall|i: int|
            0 <= i < items@.len() ==> ((#[trigger] items@[i]).shape matches ExprShape::Lit(Lit::Int(d))
                && text::parsed_number(d@, 255) == Some(bytes[i] as nat)),
        _ => false,
    }
}

// ---------------------------------------------------------------------------
// Reading them
// ---------------------------------------------------------------------------

proof fn lemma_wraps(e: Expr, inner: Expr)
    ensures
        wraps(e, seeds::unwrapped(e)),
        wraps(e, inner) ==> seeds::unwrapped(e) == seeds::unwrapped(inner),
    decreases e,
{
    match e.shape {
        ExprShape::Reference(next) => lemma_wraps(*next, inner),
        ExprShape::Paren(next) => lemma_wraps(*next, inner),
        _ => {},
    }
}

proof fn lemma_name(e: Expr, name: Seq<char>)
    ensures
        is_name(e, name) == (seeds::bare_name(e) == Some(name)),
{
    lemma_wraps(e, e);
    if is_name(e, name) {
        let inner = choose|inner: Expr|
            #[trigger] wraps(e, inner) && inner.shape is Path && is_bare(
                inner.shape->Path_0,
                name,
            );
        lemma_wraps(e, inner);
    }
    if seeds::bare_name(e) == Some(name) {
        let inner = seeds::unwrapped(e);
        assert(wraps(e, inner) && inner.shape is Path && is_bare(inner.shape->Path_0, name));
    }
}

proof fn lemma_calls(e: Expr, method: Seq<char>, receiver: Expr)
    ensures
        calls(e, method, receiver) == (seeds::receiver(e, method) == Some(receiver)),
{
    lemma_wraps(e, e);
    if calls(e, method, receiver) {
        let inner = choose|inner: Expr|
            #[trigger] wraps(e, inner) && inner.shape is MethodCall && *inner.shape->MethodCall_0
                == receiver && inner.shape->MethodCall_1@ == method
                && inner.shape->MethodCall_2@.len() == 0;
        lemma_wraps(e, inner);
    }
    if seeds::receiver(e, method) == Some(receiver) {
        let inner = seeds::unwrapped(e);
        assert(wraps(e, inner) && inner.shape is MethodCall && *inner.shape->MethodCall_0
            == receiver && inner.shape->MethodCall_1@ == method
            && inner.shape->MethodCall_2@.len() == 0);
    }
}

/// A call is no name, and has one method and one receiver.
proof fn lemma_one_call(e: Expr, a: Seq<char>, b: Seq<char>)
    ensures
        seeds::receiver(e, a) is Some ==> seeds::bare_name(e) is None,
        seeds::receiver(e, a) is Some && seeds::receiver(e, b) is Some ==> a == b,
{
}

proof fn lemma_methods()
    ensures
        "as_ref"@ != "address"@,
        "as_ref"@ != "key"@,
        "address"@ != "key"@,
        "as_ref"@ != "to_le_bytes"@,
{
    reveal_strlit("as_ref");
    reveal_strlit("address");
    reveal_strlit("key");
    reveal_strlit("to_le_bytes");
    assert("as_ref"@[1] == 's' && "address"@[1] == 'd' && "key"@[0] == 'k' && "as_ref"@[0] == 'a'
        && "address"@[0] == 'a' && "to_le_bytes"@[0] == 't');
}

proof fn lemma_key_of(e: Expr, name: Seq<char>)
    ensures
        is_key_of(e, name) == (match (seeds::receiver(e, "address"@), seeds::receiver(e, "key"@)) {
            (Some(r), _) => seeds::bare_name(r) == Some(name),
            (None, Some(r)) => seeds::bare_name(r) == Some(name),
            (None, None) => false,
        }),
{
    lemma_methods();
    lemma_one_call(e, "address"@, "key"@);
    if is_key_of(e, name) {
        let r = choose|r: Expr|
            (calls(e, "key"@, r) || calls(e, "address"@, r)) && #[trigger] is_name(r, name);
        lemma_calls(e, "key"@, r);
        lemma_calls(e, "address"@, r);
        lemma_name(r, name);
    }
    if let Some(r) = seeds::receiver(e, "address"@) {
        lemma_calls(e, "address"@, r);
        lemma_name(r, name);
        if seeds::bare_name(r) == Some(name) {
            assert(is_name(r, name));
        }
    }
    if let Some(r) = seeds::receiver(e, "key"@) {
        lemma_calls(e, "key"@, r);
        lemma_name(r, name);
        if seeds::bare_name(r) == Some(name) {
            assert(is_name(r, name));
        }
    }
}

/// The root of an account expression is the name of which it has the form.
pub proof fn law_account_roots_are_names(e: Expr, name: Seq<char>)
    ensures
        (seeds::account_root(e) == Some(name)) == is_account_form(e, name),
{
    lemma_methods();
    lemma_one_call(e, "as_ref"@, "address"@);
    lemma_one_call(e, "as_ref"@, "key"@);
    lemma_one_call(e, "address"@, "as_ref"@);
    lemma_one_call(e, "key"@, "as_ref"@);
    lemma_name(e, name);
    lemma_key_of(e, name);
    match seeds::receiver(e, "as_ref"@) {
        Some(r) => {
            lemma_calls(e, "as_ref"@, r);
            lemma_name(r, name);
            lemma_key_of(r, name);
            lemma_one_call(r, "address"@, "key"@);
            lemma_one_call(r, "key"@, "address"@);
            if is_account_form(e, name) && !is_name(e, name) && !is_key_of(e, name) {
                let q = choose|q: Expr|
                    #[trigger] calls(e, "as_ref"@, q) && (is_name(q, name) || is_key_of(q, name));
                lemma_calls(e, "as_ref"@, q);
                assert(q == r);
            }
            if is_name(r, name) || is_key_of(r, name) {
                assert(calls(e, "as_ref"@, r));
            }
        },
        None => {
            assert forall|q: Expr| !#[trigger] calls(e, "as_ref"@, q) by {
                lemma_calls(e, "as_ref"@, q);
            }
        },
    }
}

/// The root of an argument expression is the name of which it has the form.
pub proof fn law_arg_roots_are_names(e: Expr, name: Seq<char>)
    ensures
        (seeds::arg_root(e) == Some(name)) == is_arg_form(e, name),
{
    lemma_methods();
    lemma_one_call(e, "as_ref"@, "to_le_bytes"@);
    lemma_one_call(e, "to_le_bytes"@, "as_ref"@);
    lemma_name(e, name);
    if is_arg_form(e, name) && !is_name(e, name) {
        let r = choose|r: Expr|
            (calls(e, "as_ref"@, r) || calls(e, "to_le_bytes"@, r)) && #[trigger] is_name(r, name);
        lemma_calls(e, "as_ref"@, r);
        lemma_calls(e, "to_le_bytes"@, r);
        lemma_name(r, name);
    }
    if let Some(r) = seeds::receiver(e, "as_ref"@) {
        lemma_calls(e, "as_ref"@, r);
        lemma_name(r, name);
        if seeds::bare_name(r) == Some(name) {
            assert(is_name(r, name));
        }
    }
    if let Some(r) = seeds::receiver(e, "to_le_bytes"@) {
        lemma_calls(e, "to_le_bytes"@, r);
        lemma_name(r, name);
        if seeds::bare_name(r) == Some(name) {
            assert(is_name(r, name));
        }
    }
}

proof fn lemma_bytes_of(e: Expr, s: Seq<char>)
    ensures
        is_bytes_of(e, s) == (seeds::as_bytes_literal(e) == Some(s)),
{
    if is_bytes_of(e, s) {
        let (r, inner) = choose|r: Expr, inner: Expr|
            calls(e, "as_bytes"@, r) && #[trigger] wraps(r, inner) && (inner.shape
                matches ExprShape::Lit(Lit::Str(t)) && t@ == s);
        lemma_calls(e, "as_bytes"@, r);
        lemma_wraps(r, inner);
    }
    if seeds::as_bytes_literal(e) == Some(s) {
        let r = seeds::receiver(e, "as_bytes"@)->0;
        lemma_calls(e, "as_bytes"@, r);
        lemma_wraps(r, r);
        let inner = seeds::unwrapped(r);
        assert(calls(e, "as_bytes"@, r) && wraps(r, inner) && (inner.shape matches ExprShape::Lit(
            Lit::Str(t),
        ) && t@ == s));
    }
}

proof fn lemma_byte_items(items: Seq<Expr>, bytes: Seq<u8>)
    ensures
        (seeds::byte_items(items) == Some(bytes)) == (items.len() == bytes.len() && forall|i: int|
            0 <= i < items.len() ==> ((#[trigger] items[i]).shape matches ExprShape::Lit(Lit::Int(d))
                && text::parsed_number(d@, 255) == Some(bytes[i] as nat))),
    decreases items.len(),
{
    if items.len() == 0 {
        if bytes.len() == 0 {
            assert(bytes =~= Seq::empty());
        }
    } else {
        let front = items.drop_last();
        let last = items.last();
        assert(items[items.len() - 1] == last);
        if bytes.len() > 0 {
            lemma_byte_items(front, bytes.drop_last());
            assert(bytes =~= bytes.drop_last().push(bytes.last()));
            if seeds::byte_items(items) == Some(bytes) {
                let held = seeds::byte_items(front)->0;
                assert(bytes.drop_last() =~= held);
                assert forall|i: int| 0 <= i < items.len() implies ((#[trigger] items[i]).shape
                    matches ExprShape::Lit(Lit::Int(d)) && text::parsed_number(d@, 255) == Some(
                    bytes[i] as nat,
                )) by {
                    if i < front.len() {
                        assert(items[i] == front[i]);
                    }
                }
            }
            if items.len() == bytes.len() && (forall|i: int|
                0 <= i < items.len() ==> ((#[trigger] items[i]).shape matches ExprShape::Lit(
                    Lit::Int(d),
                ) && text::parsed_number(d@, 255) == Some(bytes[i] as nat))) {
                assert forall|i: int| 0 <= i < front.len() implies ((#[trigger] front[i]).shape
                    matches ExprShape::Lit(Lit::Int(d)) && text::parsed_number(d@, 255) == Some(
                    bytes.drop_last()[i] as nat,
                )) by {
                    assert(front[i] == items[i]);
                }
                assert(seeds::byte_items(front) == Some(bytes.drop_last()));
            }
        }
    }
}

proof fn lemma_literal(e: Expr, bytes: Seq<u8>)
    ensures
        is_literal(e, bytes) == (seeds::literal_bytes(e) == Some(bytes)),
{
    match e.shape {
        ExprShape::Array(items) => lemma_byte_items(items@, bytes),
        _ => {},
    }
}

proof fn lemma_refers(e: Expr, inner: Expr)
    ensures
        refers_to(e, seeds::unreferenced(e)),
        refers_to(e, inner) ==> seeds::unreferenced(e) == seeds::unreferenced(inner),
        seeds::unwrapped(seeds::unreferenced(e)) == seeds::unwrapped(e),
    decreases e,
{
    match e.shape {
        ExprShape::Reference(next) => lemma_refers(*next, inner),
        _ => {},
    }
}

proof fn lemma_roots_behind_references(e: Expr)
    ensures
        seeds::account_root(seeds::unreferenced(e)) == seeds::account_root(e),
        seeds::arg_root(seeds::unreferenced(e)) == seeds::arg_root(e),
        seeds::as_bytes_literal(seeds::unreferenced(e)) == seeds::as_bytes_literal(e),
{
    let u = seeds::unreferenced(e);
    lemma_refers(e, e);
    assert(seeds::bare_name(u) == seeds::bare_name(e));
    assert(seeds::receiver(u, "as_ref"@) == seeds::receiver(e, "as_ref"@));
    assert(seeds::receiver(u, "address"@) == seeds::receiver(e, "address"@));
    assert(seeds::receiver(u, "key"@) == seeds::receiver(e, "key"@));
    assert(seeds::receiver(u, "to_le_bytes"@) == seeds::receiver(e, "to_le_bytes"@));
    assert(seeds::receiver(u, "as_bytes"@) == seeds::receiver(e, "as_bytes"@));
}

// ---------------------------------------------------------------------------
// Texts of seeds
// ---------------------------------------------------------------------------

/// `{"kind":kind,key:text}`, the key coming behind `kind`.
proof fn lemma_seed_text(kind: Seq<char>, key: Seq<char>, value: Json)
    requires
        json::str_less("kind"@, key),
        key != "kind"@,
    ensures
        json::json_text(Json::Object(seq![("kind"@, Json::Text(kind)), (key, value)]))
            == json::object_text(
            seq![("kind"@, json::quoted(kind)), (key, json::json_text(value))],
        ),
{
    let markers = |i: nat| json::marker_text(i);
    let fields = seq![("kind"@, Json::Text(kind)), (key, value)];
    let first = ("kind"@, json::quoted(kind));
    let second = (key, json::json_text(value));
    let texts = json::field_texts(fields, markers);
    json::lemma_field_texts(fields, markers);
    assert(texts =~= seq![first, second]);
    lemma_not_less(key, "kind"@);
    assert(json::entry_insert(Seq::empty(), first.0, first.1) =~= seq![first]);
    assert(seq![first].drop_first() =~= Seq::empty());
    assert(json::entry_insert(Seq::empty(), second.0, second.1) =~= seq![second]);
    assert(json::entry_insert(seq![first], second.0, second.1) =~= seq![first, second]);
    assert(texts.drop_first() =~= seq![second]);
    assert(seq![second].drop_first() =~= Seq::empty());
    assert(json::inserted(seq![first, second], Seq::empty()) == seq![first, second]);
    assert(json::inserted(seq![first], seq![second]) == seq![first, second]);
    assert(json::inserted(Seq::empty(), texts) == seq![first, second]);
}

proof fn lemma_not_less(a: Seq<char>, b: Seq<char>)
    requires
        json::str_less(b, a),
    ensures
        !json::str_less(a, b),
    decreases b.len(),
{
    if a.len() > 0 && b.len() > 0 && a[0] == b[0] {
        lemma_not_less(a.drop_first(), b.drop_first());
    }
}

proof fn lemma_keys()
    ensures
        json::str_less("kind"@, "path"@),
        json::str_less("kind"@, "value"@),
        "path"@ != "kind"@,
        "value"@ != "kind"@,
{
    reveal_strlit("kind");
    reveal_strlit("path");
    reveal_strlit("value");
    assert("kind"@[0] == 'k' && "path"@[0] == 'p' && "value"@[0] == 'v');
}

/// The JSON of constant bytes.
pub open spec fn const_text(bytes: Seq<u8>) -> Seq<char> {
    json::object_text(
        seq![
            ("kind"@, json::quoted("const"@)),
            (
                "value"@,
                json::array_text(Seq::new(bytes.len(), |i: int| json::decimal(bytes[i] as nat))),
            ),
        ],
    )
}

/// The JSON of a path to an account or an argument.
pub open spec fn path_text(kind: Seq<char>, path: Seq<char>) -> Seq<char> {
    json::object_text(seq![("kind"@, json::quoted(kind)), ("path"@, json::quoted(path))])
}

proof fn lemma_texts(bytes: Seq<u8>, path: Seq<char>)
    ensures
        json::json_text(seeds::const_seed(bytes)) == const_text(bytes),
        json::json_text(seeds::account_seed(path)) == path_text("account"@, path),
        json::json_text(seeds::arg_seed(path)) == path_text("arg"@, path),
{
    lemma_keys();
    lemma_seed_text("const"@, "value"@, discriminators::bytes_json(bytes));
    lemma_seed_text("account"@, "path"@, Json::Text(path));
    lemma_seed_text("arg"@, "path"@, Json::Text(path));
    discriminators::law_discriminators_are_lists_of_numbers(bytes);
}

// ---------------------------------------------------------------------------
// Laws
// ---------------------------------------------------------------------------

/// A literal, behind any references, is a constant.
pub proof fn law_literals_are_constants(
    e: Expr,
    inner: Expr,
    bytes: Seq<u8>,
    fields: &[String],
    args: &[String],
)
    requires
        refers_to(e, inner),
        is_literal(inner, bytes),
    ensures
        seeds::classified(e, fields, args) == SeedView::Static(const_text(bytes)),
{
    lemma_refers(e, inner);
    lemma_literal(inner, bytes);
    lemma_texts(bytes, Seq::empty());
    assert(seeds::unreferenced(inner) == inner);
}

/// An expression that stands for an account field is an account seed.
pub proof fn law_account_forms_are_account_seeds(
    e: Expr,
    name: Seq<char>,
    fields: &[String],
    args: &[String],
)
    requires
        is_account_form(e, name),
        text::lists(fields@, name),
    ensures
        seeds::classified(e, fields, args) == SeedView::Static(path_text("account"@, name)),
{
    law_account_roots_are_names(e, name);
    lemma_roots_behind_references(e);
    seeds::law_fields_win_over_args(e, name, fields@, args@);
    lemma_texts(Seq::empty(), name);
}

/// An expression that stands for an argument, and for no account field, is an
/// argument seed.
pub proof fn law_arg_forms_are_arg_seeds(
    e: Expr,
    name: Seq<char>,
    fields: &[String],
    args: &[String],
)
    requires
        is_arg_form(e, name),
        text::lists(args@, name),
        forall|other: Seq<char>|
            #[trigger] is_account_form(e, other) ==> !text::lists(fields@, other),
    ensures
        seeds::classified(e, fields, args) == SeedView::Static(path_text("arg"@, name)),
{
    law_arg_roots_are_names(e, name);
    lemma_roots_behind_references(e);
    if let Some(other) = seeds::account_root(e) {
        law_account_roots_are_names(e, other);
    }
    seeds::lemma_roots_are_no_literals(seeds::unreferenced(e));
    lemma_texts(Seq::empty(), name);
}

/// The bytes of a string literal are a constant.
pub proof fn law_bytes_of_strings_are_constants(
    e: Expr,
    s: Seq<char>,
    fields: &[String],
    args: &[String],
)
    requires
        is_bytes_of(e, s),
    ensures
        seeds::classified(e, fields, args) == SeedView::Static(
            const_text(vstd::utf8::encode_utf8(s)),
        ),
{
    lemma_bytes_of(e, s);
    lemma_roots_behind_references(e);
    lemma_refers(e, e);
    lemma_texts(vstd::utf8::encode_utf8(s), Seq::empty());
    reveal_strlit("as_bytes");
    reveal_strlit("as_ref");
    reveal_strlit("address");
    reveal_strlit("key");
    reveal_strlit("to_le_bytes");
    assert("as_bytes"@[3] == 'b' && "as_ref"@[3] == 'r' && "address"@[1] == 'd' && "as_bytes"@[1]
        == 's' && "key"@[0] == 'k' && "to_le_bytes"@[0] == 't' && "as_bytes"@[0] == 'a');
    lemma_one_call(e, "as_bytes"@, "as_ref"@);
    lemma_one_call(e, "as_bytes"@, "address"@);
    lemma_one_call(e, "as_bytes"@, "key"@);
    lemma_one_call(e, "as_bytes"@, "to_le_bytes"@);
    assert(seeds::account_root(e) is None);
    assert(seeds::arg_root(e) is None);
    let u = seeds::unreferenced(e);
    assert(seeds::literal_bytes(u) is None) by {
        match u.shape {
            ExprShape::Lit(_) => {
                assert(seeds::unwrapped(u) == u);
            },
            ExprShape::Array(_) => {
                assert(seeds::unwrapped(u) == u);
            },
            _ => {},
        }
    }
}

/// The expression has one of the forms that are recognized.
pub open spec fn is_recognized(e: Expr, fields: &[String], args: &[String]) -> bool {
    ||| exists|inner: Expr, bytes: Seq<u8>|
        #[trigger] refers_to(e, inner) && #[trigger] is_literal(inner, bytes)
    ||| exists|name: Seq<char>| #[trigger] is_account_form(e, name) && text::lists(fields@, name)
    ||| exists|name: Seq<char>| #[trigger] is_arg_form(e, name) && text::lists(args@, name)
    ||| exists|s: Seq<char>| #[trigger] is_bytes_of(e, s)
}

/// An expression of no recognized form cannot be represented if it mentions a
/// field or an argument; any other is evaluated when the IDL is built.
pub proof fn law_other_forms_are_evaluated_or_left_out(
    e: Expr,
    fields: &[String],
    args: &[String],
)
    requires
        !is_recognized(e, fields, args),
    ensures
        seeds::classified(e, fields, args) == if Query::Input(fields, args).found_in(e) {
            SeedView::Unsupported
        } else {
            SeedView::Runtime(
                tokens::words("anchor_lang :: idl_build :: __idl_const_seed_json"@)
                    + tokens::group(Delim::Paren, tokens::stream_tokens(e.tokens)),
            )
        },
{
    let u = seeds::unreferenced(e);
    lemma_refers(e, e);
    lemma_roots_behind_references(e);
    if let Some(bytes) = seeds::literal_bytes(u) {
        lemma_literal(u, bytes);
        assert(refers_to(e, u) && is_literal(u, bytes));
    }
    if let Some(name) = seeds::account_root(e) {
        law_account_roots_are_names(e, name);
    }
    if let Some(name) = seeds::arg_root(e) {
        law_arg_roots_are_names(e, name);
    }
    if let Some(s) = seeds::as_bytes_literal(e) {
        lemma_bytes_of(e, s);
    }
}

/// An array is classified seed by seed: the `i`-th seed is what the `i`-th
/// element alone is classified as, with the same fields and the same arguments.
/// There is no list exactly if some element cannot be represented.
pub proof fn law_arrays_are_classified_seed_by_seed(e: Expr, fields: &[String], args: &[String])
    requires
        e.shape is Array,
    ensures
        ({
            let items = e.shape->Array_0@;
            match seeds::classified_list(e, fields, args) {
                Some(list) => list is Listed && list->Listed_0.len() == items.len() && forall|i: int|
                    0 <= i < items.len() ==> #[trigger] list->Listed_0[i] == seeds::classified(
                        items[i],
                        fields,
                        args,
                    ) && list->Listed_0[i] != SeedView::Unsupported,
                None => exists|i: int|
                    0 <= i < items.len() && seeds::classified(#[trigger] items[i], fields, args)
                        == SeedView::Unsupported,
            }
        }),
{
}

/// No seed of a list that is evaluated when the IDL is built mentions a field or
/// an argument.
pub proof fn law_listed_runtime_seeds_are_constant(
    e: Expr,
    i: int,
    fields: &[String],
    args: &[String],
)
    requires
        e.shape is Array,
        0 <= i < e.shape->Array_0@.len(),
        seeds::classified_list(e, fields, args) is Some,
        seeds::classified_list(e, fields, args)->0->Listed_0[i] is Runtime,
    ensures
        !Query::Input(fields, args).found_in(e.shape->Array_0@[i]),
{
    law_arrays_are_classified_seed_by_seed(e, fields, args);
}

/// In a list, an element that stands for an argument, and for no account field,
/// is an argument seed, and one that stands for an account field is an account
/// seed.
pub proof fn law_listed_names_are_known(
    e: Expr,
    i: int,
    name: Seq<char>,
    fields: &[String],
    args: &[String],
)
    requires
        e.shape is Array,
        0 <= i < e.shape->Array_0@.len(),
        seeds::classified_list(e, fields, args) is Some,
    ensures
        ({
            let item = e.shape->Array_0@[i];
            let seed = seeds::classified_list(e, fields, args)->0->Listed_0[i];
            &&& is_account_form(item, name) && text::lists(fields@, name) ==> seed
                == SeedView::Static(path_text("account"@, name))
            &&& is_arg_form(item, name) && text::lists(args@, name) && (forall|other: Seq<char>|
                #[trigger] is_account_form(item, other) ==> !text::lists(fields@, other)) ==> seed
                == SeedView::Static(path_text("arg"@, name))
        }),
{
    let item = e.shape->Array_0@[i];
    law_arrays_are_classified_seed_by_seed(e, fields, args);
    if is_account_form(item, name) && text::lists(fields@, name) {
        law_account_forms_are_account_seeds(item, name, fields, args);
    }
    if is_arg_form(item, name) && text::lists(args@, name) && (forall|other: Seq<char>|
        #[trigger] is_account_form(item, other) ==> !text::lists(fields@, other)) {
        law_arg_forms_are_arg_seeds(item, name, fields, args);
    }
}

/// A program is what a seed of the same expression is: an account field or an
/// argument by its path, a constant by its bytes, any other expression by what it
/// evaluates to when the IDL is built. There is none exactly if the expression
/// has no recognized form and mentions a field or an argument.
pub proof fn law_programs_are_classified_like_seeds(
    e: Expr,
    name: Seq<char>,
    fields: &[String],
    args: &[String],
)
    ensures
        ({
            let program = seeds::classified_program(e, fields, args);
            &&& is_account_form(e, name) && text::lists(fields@, name) ==> program == Some(
                SeedView::Static(path_text("account"@, name)),
            )
            &&& is_arg_form(e, name) && text::lists(args@, name) && (forall|other: Seq<char>|
                #[trigger] is_account_form(e, other) ==> !text::lists(fields@, other)) ==> program
                == Some(SeedView::Static(path_text("arg"@, name)))
            &&& !is_recognized(e, fields, args) ==> program == if Query::Input(
                fields,
                args,
            ).found_in(e) {
                None
            } else {
                Some(
                    SeedView::Runtime(
                        tokens::words("anchor_lang :: idl_build :: __idl_const_seed_json"@)
                            + tokens::group(Delim::Paren, tokens::stream_tokens(e.tokens)),
                    ),
                )
            }
            &&& is_recognized(e, fields, args) ==> program is Some && program->0
                == seeds::classified(e, fields, args) && program->0 is Static
        }),
{
    if is_account_form(e, name) && text::lists(fields@, name) {
        law_account_forms_are_account_seeds(e, name, fields, args);
    }
    if is_arg_form(e, name) && text::lists(args@, name) && (forall|other: Seq<char>|
        #[trigger] is_account_form(e, other) ==> !text::lists(fields@, other)) {
        law_arg_forms_are_arg_seeds(e, name, fields, args);
    }
    if !is_recognized(e, fields, args) {
        law_other_forms_are_evaluated_or_left_out(e, fields, args);
    } else {
        lemma_recognized(e, fields, args);
    }
}

proof fn lemma_recognized(e: Expr, fields: &[String], args: &[String])
    requires
        is_recognized(e, fields, args),
    ensures
        seeds::classified(e, fields, args) is Static,
{
    if exists|inner: Expr, bytes: Seq<u8>|
        #[trigger] refers_to(e, inner) && #[trigger] is_literal(inner, bytes) {
        let (inner, bytes) = choose|inner: Expr, bytes: Seq<u8>|
            #[trigger] refers_to(e, inner) && #[trigger] is_literal(inner, bytes);
        law_literals_are_constants(e, inner, bytes, fields, args);
    } else if exists|name: Seq<char>| #[trigger] is_account_form(e, name) && text::lists(
        fields@,
        name,
    ) {
        let name = choose|name: Seq<char>| #[trigger] is_account_form(e, name) && text::lists(
            fields@,
            name,
        );
        law_account_forms_are_account_seeds(e, name, fields, args);
    } else if exists|name: Seq<char>| #[trigger] is_arg_form(e, name) && text::lists(args@, name) {
        let name = choose|name: Seq<char>| #[trigger] is_arg_form(e, name) && text::lists(
            args@,
            name,
        );
        law_arg_forms_are_arg_seeds(e, name, fields, args);
    } else {
        let s = choose|s: Seq<char>| #[trigger] is_bytes_of(e, s);
        law_bytes_of_strings_are_constants(e, s, fields, args);
    }
}

/// The root of a simple seed expression is the name of the account that it
/// stands for, or else that of the argument; any other expression has none.
pub proof fn law_roots_are_names(e: Expr, name: Seq<char>)
    ensures
        is_account_form(e, name) ==> seeds::root_name(e) == Some(name),
        is_arg_form(e, name) && (forall|other: Seq<char>| !#[trigger] is_account_form(e, other))
            ==> seeds::root_name(e) == Some(name),
        seeds::root_name(e) == Some(name) ==> is_account_form(e, name) || is_arg_form(e, name),
{
    law_account_roots_are_names(e, name);
    law_arg_roots_are_names(e, name);
    if let Some(other) = seeds::account_root(e) {
        law_account_roots_are_names(e, other);
    }
}

/// Any other expression for the seeds is evaluated as a whole, unless it
/// mentions a field or an argument.
pub proof fn law_other_lists_are_evaluated_as_a_whole(
    e: Expr,
    fields: &[String],
    args: &[String],
)
    requires
        !(e.shape is Array),
    ensures
        seeds::classified_list(e, fields, args) == if Query::Input(fields, args).found_in(e) {
            None
        } else {
            Some(
                SeedListView::Runtime(
                    tokens::words("anchor_lang :: idl_build :: __idl_const_seeds_json"@)
                        + tokens::group(Delim::Paren, tokens::stream_tokens(e.tokens)),
                ),
            )
        },
{
}

// ---------------------------------------------------------------------------
// Searching
// ---------------------------------------------------------------------------

/// `s` is the expression `e` or stands inside it.
pub open spec fn stands_in(s: Expr, e: Expr) -> bool
    decreases e,
{
    ||| s == e
    ||| match e.shape {
        ExprShape::Reference(inner) => stands_in(s, *inner),
        ExprShape::Paren(inner) => stands_in(s, *inner),
        ExprShape::Group(inner) => stands_in(s, *inner),
        ExprShape::Array(items) => exists|i: int|
            0 <= i < items@.len() && stands_in(s, #[trigger] items@[i]),
        ExprShape::MethodCall(receiver, _, args) => stands_in(s, *receiver) || exists|i: int|
            0 <= i < args@.len() && stands_in(s, #[trigger] args@[i]),
        _ => false,
    }
    ||| exists|i: int| 0 <= i < e.nested@.len() && stands_in(s, #[trigger] e.nested@[i])
}

proof fn lemma_found_where_it_stands(q: Query, s: Expr, e: Expr)
    requires
        stands_in(s, e),
        q.hits(s),
    ensures
        q.found_in(e),
    decreases e,
{
    if s != e {
        match e.shape {
            ExprShape::Reference(inner) => if stands_in(s, *inner) {
                lemma_found_where_it_stands(q, s, *inner);
            },
            ExprShape::Paren(inner) => if stands_in(s, *inner) {
                lemma_found_where_it_stands(q, s, *inner);
            },
            ExprShape::Group(inner) => if stands_in(s, *inner) {
                lemma_found_where_it_stands(q, s, *inner);
            },
            ExprShape::Array(items) => if exists|i: int|
                0 <= i < items@.len() && stands_in(s, #[trigger] items@[i]) {
                let i = choose|i: int| 0 <= i < items@.len() && stands_in(s, #[trigger] items@[i]);
                lemma_found_where_it_stands(q, s, items@[i]);
            },
            ExprShape::MethodCall(receiver, _, args) => {
                if stands_in(s, *receiver) {
                    lemma_found_where_it_stands(q, s, *receiver);
                }
                if exists|i: int| 0 <= i < args@.len() && stands_in(s, #[trigger] args@[i]) {
                    let i = choose|i: int|
                        0 <= i < args@.len() && stands_in(s, #[trigger] args@[i]);
                    lemma_found_where_it_stands(q, s, args@[i]);
                }
            },
            _ => {},
        }
        if exists|i: int| 0 <= i < e.nested@.len() && stands_in(s, #[trigger] e.nested@[i]) {
            let i = choose|i: int|
                0 <= i < e.nested@.len() && stands_in(s, #[trigger] e.nested@[i]);
            lemma_found_where_it_stands(q, s, e.nested@[i]);
        }
    }
}

proof fn lemma_stands_where_it_is_found(q: Query, e: Expr) -> (s: Expr)
    requires
        q.found_in(e),
    ensures
        stands_in(s, e),
        q.hits(s),
    decreases e,
{
    if q.hits(e) {
        e
    } else if exists|i: int| 0 <= i < e.nested@.len() && q.found_in(#[trigger] e.nested@[i]) {
        let i = choose|i: int| 0 <= i < e.nested@.len() && q.found_in(#[trigger] e.nested@[i]);
        lemma_stands_where_it_is_found(q, e.nested@[i])
    } else {
        match e.shape {
            ExprShape::Reference(inner) => lemma_stands_where_it_is_found(q, *inner),
            ExprShape::Paren(inner) => lemma_stands_where_it_is_found(q, *inner),
            ExprShape::Group(inner) => lemma_stands_where_it_is_found(q, *inner),
            ExprShape::Array(items) => {
                let i = choose|i: int| 0 <= i < items@.len() && q.found_in(#[trigger] items@[i]);
                lemma_stands_where_it_is_found(q, items@[i])
            },
            ExprShape::MethodCall(receiver, _, args) => {
                if q.found_in(*receiver) {
                    lemma_stands_where_it_is_found(q, *receiver)
                } else {
                    let i = choose|i: int| 0 <= i < args@.len() && q.found_in(#[trigger] args@[i]);
                    lemma_stands_where_it_is_found(q, args@[i])
                }
            },
            _ => e,
        }
    }
}

/// A search finds an expression exactly if one that it is after stands
/// somewhere inside.
pub proof fn law_searches_find_what_stands_inside(q: Query, e: Expr)
    ensures
        q.found_in(e) == exists|s: Expr| #[trigger] stands_in(s, e) && q.hits(s),
{
    if q.found_in(e) {
        let s = lemma_stands_where_it_is_found(q, e);
        assert(stands_in(s, e) && q.hits(s));
    }
    if exists|s: Expr| #[trigger] stands_in(s, e) && q.hits(s) {
        let s = choose|s: Expr| #[trigger] stands_in(s, e) && q.hits(s);
        lemma_found_where_it_stands(q, s, e);
    }
}

/// What the searches are after: macro calls; the name of a field or an argument
/// that stands alone; and the identifier of one, possibly behind a qualified
/// self type.
pub proof fn law_searches_are_after_names(e: Expr, fields: &[String], args: &[String])
    ensures
        Query::Macro.hits(e) == (e.shape is Macro),
        Query::Binding(fields, args).hits(e) == (e.shape is Path && exists|name: Seq<char>|
            #[trigger] is_bare(e.shape->Path_0, name) && (text::lists(fields@, name) || text::lists(
                args@,
                name,
            ))),
        Query::Input(fields, args).hits(e) == (e.shape is Path && {
            let path = e.shape->Path_0.path;
            &&& !path.leading_colon
            &&& path.segments@.len() == 1
            &&& path.segments@[0].arguments is Absent
            &&& text::lists(fields@, path.segments@[0].ident@) || text::lists(
                args@,
                path.segments@[0].ident@,
            )
        }),
{
    if let ExprShape::Path(p) = e.shape {
        if let Some(name) = p.bare() {
            assert(is_bare(p, name));
        }
        assert forall|name: Seq<char>| #[trigger] is_bare(p, name) implies p.bare() == Some(
            name,
        ) by {}
    }
}

} // verus!
