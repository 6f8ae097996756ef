//! Filling in the open lengths of a document.
//!
//! The code that is generated for a document pushes texts and lengths one after
//! the other. The proofs here show that what it prints is the document with
//! every open length replaced by its value: no marker is mistaken for a part of
//! a string, and no string for a marker.

use crate::builtins;
use crate::json::{self, Json};
use crate::lengths;
use crate::lower::{self, ArrayLen};
use crate::splice::{self, Step};
use crate::symbols::{self, Sym};
use crate::syntax::{GenericArgument, Generics, PathArguments, Type, TypeShape};
use crate::text;
use crate::tokens;
use vstd::prelude::*;
use vstd::string::*;

verus! {

/// What one statement of the generated code pushes, the `i`-th length
/// expression having a value with the digits `lengths(i)`.
pub open spec fn step_text(step: Step, lengths: spec_fn(nat) -> Seq<char>) -> Seq<char> {
    match step {
        Step::Text(s) => s,
        Step::Length(i) => lengths(i),
    }
}

/// What the generated code prints.
pub open spec fn printed(steps: Seq<Step>, lengths: spec_fn(nat) -> Seq<char>) -> Seq<char>
    decreases steps.len(),
{
    if steps.len() == 0 {
        Seq::empty()
    } else {
        printed(steps.drop_last(), lengths) + step_text(steps.last(), lengths)
    }
}

// ---------------------------------------------------------------------------
// Where the start of a marker can stand
// ---------------------------------------------------------------------------

/// What every marker starts with: the brace and the key.
spec fn opening() -> Seq<char> {
    seq!['{'] + json::quoted(json::DYNAMIC_LEN_KEY@)
}

proof fn lemma_opening()
    ensures
        json::quoted(json::DYNAMIC_LEN_KEY@) == seq!['"'] + json::DYNAMIC_LEN_KEY@ + seq!['"'],
        json::DYNAMIC_LEN_KEY@.len() == 26,
        opening().len() == 29,
        opening()[0] == '{',
        opening()[1] == '"',
        opening()[2] == '_',
        opening()[27] == 'n',
        opening()[28] == '"',
        forall|i: int|
            1 <= i < 29 ==> #[trigger] opening()[i] != '{' && opening()[i] != '}' && opening()[i]
                != '\\',
        forall|i: int| 2 <= i < 28 ==> #[trigger] opening()[i] != '"',
        forall|i: int| 0 <= i < 26 ==> json::is_plain(#[trigger] json::DYNAMIC_LEN_KEY@[i]),
{
    reveal_strlit("__anchor_private_const_len");
    json::lemma_quoted_plain(json::DYNAMIC_LEN_KEY@);
}

spec fn opens_nowhere(s: Seq<char>) -> bool {
    forall|k: int| !#[trigger] text::occurs_at(s, opening(), k)
}

/// The text ends with the first `n` characters of a marker.
spec fn opens_late(s: Seq<char>, n: int) -> bool {
    0 <= n <= s.len() && s.skip(s.len() - n) == opening().take(n)
}

/// A text that can stand beside others of its kind without an open marker: at
/// its end it leaves no more of one open than a closing quote behind a brace,
/// and it does not continue that.
spec fn inert(s: Seq<char>) -> bool {
    &&& s.len() > 0
    &&& s[0] != '_'
    &&& opens_nowhere(s)
    &&& forall|n: int| 1 <= n < 29 && n != 2 ==> !#[trigger] opens_late(s, n)
}

proof fn lemma_inert_add(a: Seq<char>, b: Seq<char>)
    requires
        inert(a),
        inert(b),
    ensures
        inert(a + b),
{
    let s = a + b;
    let w = opening();
    lemma_opening();
    assert forall|k: int| !#[trigger] text::occurs_at(s, w, k) by {
        if text::occurs_at(s, w, k) {
            let found = s.subrange(k, k + w.len());
            if k + w.len() <= a.len() {
                assert(a.subrange(k, k + w.len()) =~= found);
                assert(text::occurs_at(a, w, k));
            } else if k >= a.len() {
                let j = k - a.len();
                assert(b.subrange(j, j + w.len()) =~= found);
                assert(text::occurs_at(b, w, j));
            } else {
                let n = a.len() - k;
                assert(a.skip(k) =~= w.take(n)) by {
                    assert forall|i: int| 0 <= i < n implies a.skip(k)[i] == w.take(n)[i] by {
                        assert(found[i] == s[k + i]);
                    }
                }
                assert(opens_late(a, n));
                assert(found[n] == b[0]);
            }
        }
    }
    assert forall|n: int| 1 <= n < 29 && n != 2 implies !#[trigger] opens_late(s, n) by {
        if opens_late(s, n) {
            let end = s.skip(s.len() - n);
            if n <= b.len() {
                assert(b.skip(b.len() - n) =~= end);
                assert(opens_late(b, n));
            } else {
                let m = n - b.len();
                assert(a.skip(a.len() - m) =~= w.take(m)) by {
                    assert forall|i: int| 0 <= i < m implies a.skip(a.len() - m)[i] == w.take(
                        m,
                    )[i] by {
                        assert(end[i] == w.take(n)[i]);
                    }
                }
                assert(opens_late(a, m));
                assert(end[m] == b[0]);
                assert(w.take(n)[m] == w[m]);
            }
        }
    }
}

proof fn lemma_inert_braceless(s: Seq<char>)
    requires
        s.len() > 0,
        s[0] != '_',
        forall|i: int| 0 <= i < s.len() ==> #[trigger] s[i] != '{',
    ensures
        inert(s),
{
    lemma_opening();
    assert forall|k: int| !#[trigger] text::occurs_at(s, opening(), k) by {
        if text::occurs_at(s, opening(), k) {
            assert(s.subrange(k, k + opening().len())[0] == s[k]);
        }
    }
    assert forall|n: int| 1 <= n < 29 && n != 2 implies !#[trigger] opens_late(s, n) by {
        if opens_late(s, n) {
            assert(s.skip(s.len() - n)[0] == s[s.len() - n]);
            assert(opening().take(n)[0] == '{');
        }
    }
}

proof fn lemma_inert_char(c: char)
    requires
        c != '_',
        c != '{',
    ensures
        inert(seq![c]),
{
    lemma_inert_braceless(seq![c]);
}

proof fn lemma_inert_quoted(s: Seq<char>)
    ensures
        inert(json::quoted(s)),
{
    let e = json::escaped(s);
    let q = json::quoted(s);
    let w = opening();
    lemma_opening();
    json::law_string_literals_are_well_formed(s);
    assert forall|k: int| !#[trigger] text::occurs_at(q, w, k) by {
        if text::occurs_at(q, w, k) {
            let found = q.subrange(k, k + w.len());
            assert(found[0] == q[k] && found[1] == q[k + 1]);
            assert(q[k + 1] == e[k]);
        }
    }
    assert forall|n: int| 1 <= n < 29 && n != 2 implies !#[trigger] opens_late(q, n) by {
        if opens_late(q, n) {
            let k = q.len() - n;
            let end = q.skip(k);
            assert(end[0] == q[k] && w.take(n)[0] == '{');
            if n > 2 {
                assert(end[1] == q[k + 1] && w.take(n)[1] == '"');
                assert(q[k + 1] == e[k]);
            }
        }
    }
}

/// A key that no marker has.
pub open spec fn is_plain_key(key: Seq<char>) -> bool {
    key != json::DYNAMIC_LEN_KEY@
}

proof fn lemma_short_key(key: Seq<char>)
    requires
        key.len() < 26,
    ensures
        is_plain_key(key),
{
    lemma_opening();
}

/// The keys of the IDL are none that a marker has.
pub proof fn lemma_idl_keys()
    ensures
        is_plain_key("array"@),
        is_plain_key("defined"@),
        is_plain_key("docs"@),
        is_plain_key("generic"@),
        is_plain_key("generics"@),
        is_plain_key("kind"@),
        is_plain_key("name"@),
        is_plain_key("option"@),
        is_plain_key("type"@),
        is_plain_key("value"@),
        is_plain_key("vec"@),
{
    reveal_strlit("array");
    reveal_strlit("defined");
    reveal_strlit("docs");
    reveal_strlit("generic");
    reveal_strlit("generics");
    reveal_strlit("kind");
    reveal_strlit("name");
    reveal_strlit("option");
    reveal_strlit("type");
    reveal_strlit("value");
    reveal_strlit("vec");
    lemma_short_key("array"@);
    lemma_short_key("defined"@);
    lemma_short_key("docs"@);
    lemma_short_key("generic"@);
    lemma_short_key("generics"@);
    lemma_short_key("kind"@);
    lemma_short_key("name"@);
    lemma_short_key("option"@);
    lemma_short_key("type"@);
    lemma_short_key("value"@);
    lemma_short_key("vec"@);
}

/// A quoted key that is not that of a marker does not start like one.
proof fn lemma_quoted_key(key: Seq<char>, rest: Seq<char>)
    requires
        is_plain_key(key),
    ensures
        !text::occurs_at(json::quoted(key) + rest, json::quoted(json::DYNAMIC_LEN_KEY@), 0),
{
    let wanted = json::DYNAMIC_LEN_KEY@;
    let q = json::quoted(wanted);
    let e = json::escaped(key);
    let s = json::quoted(key) + rest;
    lemma_opening();
    json::law_string_literals_are_well_formed(key);
    if text::occurs_at(s, q, 0) {
        let found = s.subrange(0, q.len() as int);
        assert forall|i: int| 0 <= i < 28 implies #[trigger] found[i] == s[i] by {}
        assert(found[27] == '"' && found[26] == wanted[25] && found[26] != '\\') by {
            assert(opening()[27] == q[26]);
            assert(opening()[28] == q[27]);
        }
        if e.len() > 26 {
            assert(s[27] == e[26] && s[26] == e[25]);
        } else if e.len() < 26 {
            let last = e.len() + 1int;
            assert(s[last] == '"');
            assert(found[last] == q[last]);
            assert(opening()[last + 1] == q[last]);
        } else {
            assert(e =~= wanted) by {
                assert forall|i: int| 0 <= i < 26 implies e[i] == wanted[i] by {
                    assert(found[i + 1] == s[i + 1]);
                }
            }
            json::lemma_quoted_plain(wanted);
            json::law_string_literals_are_lossless(key, wanted);
        }
    }
}

proof fn lemma_inert_joined(parts: Seq<Seq<char>>)
    requires
        parts.len() > 0,
        forall|i: int| 0 <= i < parts.len() ==> inert(#[trigger] parts[i]),
    ensures
        inert(json::joined(parts, ',')),
    decreases parts.len(),
{
    if parts.len() > 1 {
        let head = json::joined(parts.drop_last(), ',');
        assert forall|i: int| 0 <= i < parts.drop_last().len() implies inert(
            #[trigger] parts.drop_last()[i],
        ) by {
            assert(parts.drop_last()[i] == parts[i]);
        }
        lemma_inert_joined(parts.drop_last());
        lemma_inert_char(',');
        lemma_inert_add(head, seq![',']);
        lemma_inert_add(head + seq![','], parts.last());
    }
}

/// Joined parts start with the first of them.
proof fn lemma_joined_start(parts: Seq<Seq<char>>) -> (rest: Seq<char>)
    requires
        parts.len() > 0,
    ensures
        json::joined(parts, ',') == parts[0] + rest,
    decreases parts.len(),
{
    if parts.len() == 1 {
        assert(parts[0] + Seq::empty() =~= parts[0]);
        Seq::empty()
    } else {
        let front = lemma_joined_start(parts.drop_last());
        let rest = front + seq![','] + parts.last();
        assert(json::joined(parts, ',') =~= parts[0] + rest);
        rest
    }
}

/// Every key of the document is one that no marker has.
pub open spec fn plain_keys(j: Json) -> bool
    decreases j,
{
    match j {
        Json::List(items) => all_plain_keys(items),
        Json::Object(fields) => all_plain_fields(fields),
        _ => true,
    }
}

pub open spec fn all_plain_keys(items: Seq<Json>) -> bool
    decreases items,
{
    items.len() == 0 || all_plain_keys(items.drop_last()) && plain_keys(items.last())
}

pub open spec fn all_plain_fields(fields: Seq<(Seq<char>, Json)>) -> bool
    decreases fields,
{
    fields.len() == 0 || all_plain_fields(fields.drop_last()) && is_plain_key(fields.last().0)
        && plain_keys(fields.last().1)
}

proof fn lemma_all_plain_keys(items: Seq<Json>, i: int)
    requires
        all_plain_keys(items),
        0 <= i < items.len(),
    ensures
        plain_keys(items[i]),
    decreases items.len(),
{
    if i < items.len() - 1 {
        lemma_all_plain_keys(items.drop_last(), i);
    }
}

proof fn lemma_all_plain_fields(fields: Seq<(Seq<char>, Json)>, i: int)
    requires
        all_plain_fields(fields),
        0 <= i < fields.len(),
    ensures
        is_plain_key(fields[i].0),
        plain_keys(fields[i].1),
    decreases fields.len(),
{
    if i < fields.len() - 1 {
        lemma_all_plain_fields(fields.drop_last(), i);
    }
}

proof fn lemma_inert_text(j: Json, lengths: spec_fn(nat) -> Seq<char>)
    requires
        plain_keys(j),
        forall|i: nat| inert(#[trigger] lengths(i)),
    ensures
        inert(json::text_with(j, lengths)),
    decreases j,
{
    match j {
        Json::True => lemma_inert_braceless(seq!['t', 'r', 'u', 'e']),
        Json::Number(n) => {
            json::lemma_decimal_digits(n);
            lemma_inert_braceless(json::decimal(n));
        },
        Json::Text(s) => lemma_inert_quoted(s),
        Json::Length(i) => {
            assert(inert(lengths(i)));
        },
        Json::List(items) => {
            let parts = json::item_texts(items, lengths);
            json::lemma_item_texts(items, lengths);
            assert forall|i: int| 0 <= i < parts.len() implies inert(#[trigger] parts[i]) by {
                lemma_all_plain_keys(items, i);
                lemma_inert_text(items[i], lengths);
            }
            let inner = json::joined(parts, ',');
            lemma_inert_char('[');
            lemma_inert_char(']');
            if parts.len() > 0 {
                lemma_inert_joined(parts);
                lemma_inert_add(seq!['['], inner);
                lemma_inert_add(seq!['['] + inner, seq![']']);
            } else {
                lemma_inert_add(seq!['['], seq![']']);
                assert(json::text_with(j, lengths) =~= seq!['['] + seq![']']);
            }
        },
        Json::Object(fields) => {
            let texts = json::field_texts(fields, lengths);
            let entries = json::inserted(Seq::empty(), texts);
            let ok = |key: Seq<char>, value: Seq<char>| is_plain_key(key) && inert(value);
            json::lemma_field_texts(fields, lengths);
            assert forall|i: int| 0 <= i < texts.len() implies ok(
                (#[trigger] texts[i]).0,
                texts[i].1,
            ) by {
                lemma_all_plain_fields(fields, i);
                lemma_inert_text(fields[i].1, lengths);
            }
            json::lemma_inserted_all(Seq::empty(), texts, ok);
            lemma_inert_object(entries);
        },
    }
}

proof fn lemma_inert_object(entries: Seq<(Seq<char>, Seq<char>)>)
    requires
        forall|i: int|
            0 <= i < entries.len() ==> is_plain_key((#[trigger] entries[i]).0) && inert(entries[i].1),
    ensures
        inert(json::object_text(entries)),
{
    let parts = json::entry_texts(entries);
    let inner = json::joined(parts, ',');
    let whole = json::object_text(entries);
    let w = opening();
    lemma_opening();
    lemma_inert_char('}');
    assert forall|i: int| 0 <= i < parts.len() implies inert(#[trigger] parts[i]) by {
        let (key, value) = entries[i];
        lemma_inert_quoted(key);
        lemma_inert_char(':');
        lemma_inert_add(json::quoted(key), seq![':']);
        lemma_inert_add(json::quoted(key) + seq![':'], value);
    }
    let rest = inner + seq!['}'];
    assert(whole =~= seq!['{'] + rest);
    if entries.len() == 0 {
        assert(rest =~= seq!['}']);
    } else {
        lemma_inert_joined(parts);
        lemma_inert_add(inner, seq!['}']);
    }
    assert forall|k: int| !#[trigger] text::occurs_at(whole, w, k) by {
        if text::occurs_at(whole, w, k) {
            let found = whole.subrange(k, k + w.len());
            if k > 0 {
                assert(rest.subrange(k - 1, k - 1 + w.len()) =~= found);
                assert(text::occurs_at(rest, w, k - 1));
            } else if entries.len() > 0 {
                let (key, value) = entries[0];
                let q = json::quoted(json::DYNAMIC_LEN_KEY@);
                let after = lemma_joined_start(parts);
                let tail = seq![':'] + value + after + seq!['}'];
                assert(parts[0] == json::entry_text(key, value));
                assert(rest =~= json::quoted(key) + tail);
                lemma_quoted_key(key, tail);
                assert(rest.subrange(0, q.len() as int) =~= q) by {
                    assert forall|i: int| 0 <= i < q.len() implies rest.subrange(
                        0,
                        q.len() as int,
                    )[i] == q[i] by {
                        assert(found[i + 1] == w[i + 1]);
                    }
                }
                assert(text::occurs_at(rest, q, 0));
            } else {
                assert(found[1] == whole[1]);
            }
        }
    }
    assert forall|n: int| 1 <= n < 29 && n != 2 implies !#[trigger] opens_late(whole, n) by {
        if opens_late(whole, n) {
            assert(whole.skip(whole.len() - n)[n - 1] == '}');
            assert(w.take(n)[n - 1] == w[n - 1]);
        }
    }
}

proof fn lemma_marker_opens(i: nat)
    ensures
        text::occurs_at(json::marker_text(i), opening(), 0),
{
    let key = json::DYNAMIC_LEN_KEY@;
    let m = json::marker_text(i);
    let entries = seq![(key, json::decimal(i))];
    assert(json::entry_texts(entries) =~= seq![json::entry_text(key, json::decimal(i))]);
    assert(m.subrange(0, opening().len() as int) =~= opening());
}

// ---------------------------------------------------------------------------
// The steps print the document
// ---------------------------------------------------------------------------

proof fn lemma_printed_add(a: Seq<Step>, b: Seq<Step>, lengths: spec_fn(nat) -> Seq<char>)
    ensures
        printed(a + b, lengths) == printed(a, lengths) + printed(b, lengths),
    decreases b.len(),
{
    if b.len() == 0 {
        assert(a + b =~= a);
        assert(printed(a, lengths) + printed(b, lengths) =~= printed(a, lengths));
    } else {
        assert((a + b).drop_last() =~= a + b.drop_last());
        lemma_printed_add(a, b.drop_last(), lengths);
        assert(printed(a + b, lengths) =~= printed(a, lengths) + printed(b, lengths));
    }
}

proof fn lemma_printed_one(step: Step, lengths: spec_fn(nat) -> Seq<char>)
    ensures
        printed(seq![step], lengths) == step_text(step, lengths),
{
    assert(seq![step].drop_last() =~= Seq::empty());
    assert(printed(Seq::empty(), lengths) =~= Seq::empty());
    assert(printed(seq![step], lengths) =~= step_text(step, lengths));
}

pub proof fn lemma_printed_text(s: Seq<char>, lengths: spec_fn(nat) -> Seq<char>)
    ensures
        printed(splice::text_step(s), lengths) == s,
{
    if s.len() == 0 {
        assert(printed(splice::text_step(s), lengths) =~= s);
    } else {
        lemma_printed_one(Step::Text(s), lengths);
    }
}

/// Symbols without an open length expand to one text, whatever the lengths.
pub proof fn lemma_expand_markless(
    syms: Seq<Sym>,
    a: spec_fn(nat) -> Seq<char>,
    b: spec_fn(nat) -> Seq<char>,
)
    requires
        symbols::marks(syms).len() == 0,
    ensures
        symbols::expand(syms, a) == symbols::expand(syms, b),
    decreases syms.len(),
{
    if syms.len() > 0 {
        lemma_expand_markless(syms.drop_last(), a, b);
    }
}

proof fn lemma_steps_print(syms: Seq<Sym>, i: nat, n: nat, lengths: spec_fn(nat) -> Seq<char>)
    requires
        i <= n,
        symbols::marks(syms) == lengths::run(i, (n - i) as nat),
        opens_nowhere(symbols::expand(syms, |k: nat| symbols::hash(k))),
    ensures
        printed(
            splice::length_steps(symbols::expand(syms, |k: nat| json::marker_text(k)), i, n),
            lengths,
        ) == symbols::expand(syms, lengths),
    decreases n - i,
{
    let markers = |k: nat| json::marker_text(k);
    let hashes = |k: nat| symbols::hash(k);
    let whole = symbols::expand(syms, markers);
    if i == n {
        lemma_expand_markless(syms, markers, lengths);
        lemma_printed_text(whole, lengths);
    } else {
        let m = json::marker_text(i);
        let all = symbols::marks(syms);
        let p = symbols::lemma_mark_place(syms, 0);
        let head = symbols::expand(syms.take(p), markers);
        let tail = symbols::expand(syms.skip(p + 1), markers);
        assert(all[0] == i);
        assert(all.take(0) =~= Seq::<nat>::empty());
        assert(all.skip(1) =~= lengths::run(i + 1, (n - i - 1) as nat));
        symbols::lemma_expand_at(syms, p, markers);
        symbols::lemma_expand_at(syms, p, hashes);
        symbols::lemma_expand_at(syms, p, lengths);
        lemma_expand_markless(syms.take(p), markers, hashes);
        lemma_expand_markless(syms.take(p), markers, lengths);
        lemma_marker_opens(i);
        lemma_opening();
        let skeleton = symbols::expand(syms, hashes);
        let hash_tail = symbols::expand(syms.skip(p + 1), hashes);
        assert(whole == head + m + tail);
        assert(skeleton == head + symbols::hash(i) + hash_tail);
        assert(whole.subrange(head.len() as int, head.len() as int + m.len()) =~= m);
        assert(text::occurs_at(whole, m, head.len() as int));
        assert forall|k: int| 0 <= k < head.len() implies !#[trigger] text::occurs_at(
            whole,
            m,
            k,
        ) by {
            if text::occurs_at(whole, m, k) {
                let found = whole.subrange(k, k + m.len());
                let w = opening();
                assert forall|i: int| 0 <= i < w.len() implies whole[k + i] == #[trigger] w[i] by {
                    assert(m.subrange(0, w.len() as int)[i] == m[i]);
                    assert(found[i] == whole[k + i]);
                }
                if k + w.len() <= head.len() {
                    assert(skeleton.subrange(k, k + w.len()) =~= w);
                    assert(text::occurs_at(skeleton, w, k));
                } else {
                    let n = head.len() - k;
                    assert(m.subrange(0, w.len() as int)[0] == m[0]);
                    assert(whole[head.len() as int] == m[0]);
                    assert(whole[k + n] == w[n]);
                }
            }
        }
        text::lemma_find_is(whole, m, head.len());
        assert(whole.take(head.len() as int) =~= head);
        assert(whole.skip(head.len() as int + m.len()) =~= tail);
        assert forall|k: int| !#[trigger] text::occurs_at(hash_tail, opening(), k) by {
            if text::occurs_at(hash_tail, opening(), k) {
                let j = head.len() + 1 + k;
                assert(skeleton.subrange(j, j + opening().len()) =~= hash_tail.subrange(
                    k,
                    k + opening().len(),
                ));
                assert(text::occurs_at(skeleton, opening(), j));
            }
        }
        lemma_steps_print(syms.skip(p + 1), i + 1, n, lengths);
        let rest = splice::length_steps(tail, i + 1, n);
        lemma_printed_add(splice::text_step(head) + seq![Step::Length(i)], rest, lengths);
        lemma_printed_add(splice::text_step(head), seq![Step::Length(i)], lengths);
        lemma_printed_text(head, lengths);
        lemma_printed_one(Step::Length(i), lengths);
    }
}

/// The code that is generated for a document finds the marker of every length,
/// and prints the document with its open lengths filled in, whatever their
/// values. The lengths are numbered in the order in which they print; no key of
/// the document, unless it has no open length, is that of a marker.
pub proof fn law_generated_code_prints_the_document(
    j: Json,
    n: nat,
    lengths: spec_fn(nat) -> Seq<char>,
)
    requires
        n == 0 || plain_keys(j),
        lengths::open_in(j) == lengths::run(0, n),
    ensures
        splice::markers_found(json::json_text(j), 0, n),
        printed(splice::length_steps(json::json_text(j), 0, n), lengths) == json::text_with(
            j,
            lengths,
        ),
{
    let markers = |k: nat| json::marker_text(k);
    let hashes = |k: nat| symbols::hash(k);
    symbols::lemma_flat(j, markers);
    symbols::lemma_flat(j, lengths);
    lengths::lemma_run_covers(0, n);
    symbols::lemma_markers_found(j, n);
    if n == 0 {
        lemma_expand_markless(symbols::flat(j), markers, lengths);
        lemma_printed_text(json::json_text(j), lengths);
    } else {
        symbols::lemma_flat(j, hashes);
        lemma_inert_char('#');
        lemma_inert_text(j, hashes);
        lemma_steps_print(symbols::flat(j), 0, n, lengths);
    }
}

// ---------------------------------------------------------------------------
// Lowered types
// ---------------------------------------------------------------------------

pub proof fn lemma_plain_items(items: Seq<Json>)
    requires
        forall|i: int| 0 <= i < items.len() ==> plain_keys(#[trigger] items[i]),
    ensures
        plain_keys(Json::List(items)),
    decreases items.len(),
{
    if items.len() > 0 {
        assert forall|i: int| 0 <= i < items.drop_last().len() implies plain_keys(
            #[trigger] items.drop_last()[i],
        ) by {
            assert(items.drop_last()[i] == items[i]);
        }
        lemma_plain_items(items.drop_last());
        assert(items.last() == items[items.len() - 1]);
    }
}

pub proof fn lemma_plain_fields(fields: Seq<(Seq<char>, Json)>)
    requires
        forall|i: int|
            0 <= i < fields.len() ==> is_plain_key((#[trigger] fields[i]).0) && plain_keys(
                fields[i].1,
            ),
    ensures
        plain_keys(Json::Object(fields)),
    decreases fields.len(),
{
    if fields.len() > 0 {
        assert forall|i: int| 0 <= i < fields.drop_last().len() implies is_plain_key(
            (#[trigger] fields.drop_last()[i]).0,
        ) && plain_keys(fields.drop_last()[i].1) by {
            assert(fields.drop_last()[i] == fields[i]);
        }
        lemma_plain_fields(fields.drop_last());
        assert(fields.last() == fields[fields.len() - 1]);
    }
}

pub proof fn lemma_plain_single(key: Seq<char>, j: Json)
    requires
        is_plain_key(key),
        plain_keys(j),
    ensures
        plain_keys(Json::Object(seq![(key, j)])),
{
    let fields = seq![(key, j)];
    assert(fields.drop_last() =~= Seq::empty());
    assert(all_plain_fields(Seq::empty()));
    assert(all_plain_fields(fields));
}

pub proof fn lemma_plain_two(a: (Seq<char>, Json), b: (Seq<char>, Json))
    requires
        is_plain_key(a.0),
        plain_keys(a.1),
        is_plain_key(b.0),
        plain_keys(b.1),
    ensures
        plain_keys(Json::Object(seq![a, b])),
{
    let fields = seq![a, b];
    lemma_plain_single(a.0, a.1);
    assert(fields.drop_last() =~= seq![a]);
    assert(all_plain_fields(fields));
}

pub proof fn lemma_plain_pair(a: Json, b: Json)
    requires
        plain_keys(a),
        plain_keys(b),
    ensures
        plain_keys(Json::List(seq![a, b])),
{
    let items = seq![a, b];
    assert(items.drop_last().drop_last() =~= Seq::empty());
    assert(all_plain_keys(Seq::empty()));
    assert(all_plain_keys(items.drop_last()));
    assert(all_plain_keys(items));
}

proof fn lemma_plain_defined(name: Seq<char>)
    ensures
        plain_keys(lower::defined(name)),
        plain_keys(lower::generic(name)),
{
    lemma_idl_keys();
    lemma_plain_single("name"@, Json::Text(name));
    lemma_plain_single("defined"@, Json::Object(seq![("name"@, Json::Text(name))]));
    lemma_plain_single("generic"@, Json::Text(name));
}

proof fn lemma_plain_pod_vec_json(element: Json, max: Seq<char>)
    requires
        plain_keys(element),
    ensures
        plain_keys(lower::pod_vec_json(element, max)),
{
    lemma_idl_keys();
    let type_arg = Json::Object(seq![("kind"@, Json::Text("type"@)), ("type"@, element)]);
    let const_arg = Json::Object(
        seq![("kind"@, Json::Text("const"@)), ("value"@, Json::Text(max))],
    );
    let generics = Json::List(seq![type_arg, const_arg]);
    lemma_plain_two(("kind"@, Json::Text("type"@)), ("type"@, element));
    lemma_plain_two(("kind"@, Json::Text("const"@)), ("value"@, Json::Text(max)));
    lemma_plain_pair(type_arg, const_arg);
    lemma_plain_two(("name"@, Json::Text("PodVec"@)), ("generics"@, generics));
    lemma_plain_single(
        "defined"@,
        Json::Object(seq![("name"@, Json::Text("PodVec"@)), ("generics"@, generics)]),
    );
}

proof fn lemma_pod_vec_plain(ty: Type)
    ensures
        lower::pod_vec(ty) matches Some(j) ==> plain_keys(j),
    decreases ty, 0nat,
{
    match ty.shape {
        TypeShape::Group(inner) => lemma_pod_vec_plain(*inner),
        TypeShape::Paren(inner) => lemma_pod_vec_plain(*inner),
        TypeShape::Reference(inner) => lemma_pod_vec_plain(*inner),
        TypeShape::Path(p) => {
            let segments = p.path.segments@;
            if lower::is_pod_vec(p.path) {
                match segments[segments.len() - 1].arguments {
                    PathArguments::AngleBracketed(args) => match (args@[0], args@[1]) {
                        (GenericArgument::Type(element), GenericArgument::Const(max)) => {
                            lemma_pod_element_plain(element);
                            lemma_plain_pod_vec_json(
                                lower::pod_element(element),
                                text::unspaced(tokens::stream_text(max.tokens)),
                            );
                        },
                        _ => {},
                    },
                    _ => {},
                }
            }
        },
        _ => {},
    }
}

proof fn lemma_pod_element_plain(ty: Type)
    ensures
        plain_keys(lower::pod_element(ty)),
    decreases ty, 2nat,
{
    lemma_lowered_plain(ty, None, 0);
    match ty.shape {
        TypeShape::Path(p) => {
            if p.path.segments@.len() > 0 {
                lemma_plain_defined(p.path.segments@.last().ident@);
            }
        },
        _ => {},
    }
}

/// No key of a lowered type is that of a marker.
pub proof fn lemma_lowered_plain(ty: Type, generics: Option<&Generics>, next: nat)
    ensures
        plain_keys(lower::lowered(ty, generics, next)),
    decreases ty, 1nat,
{
    lemma_pod_vec_plain(ty);
    lemma_idl_keys();
    let printed_name = text::unspaced(tokens::stream_text(ty.tokens));
    lemma_plain_defined(printed_name);
    match ty.shape {
        TypeShape::Reference(inner) => lemma_lowered_plain(*inner, generics, next),
        TypeShape::Group(inner) => lemma_lowered_plain(*inner, generics, next),
        TypeShape::Paren(inner) => lemma_lowered_plain(*inner, generics, next),
        TypeShape::Slice(inner) => {
            lemma_lowered_plain(*inner, generics, next);
            lemma_plain_single("vec"@, lower::lowered(*inner, generics, next));
        },
        TypeShape::Array(inner, len) => {
            let inner_doc = lower::lowered(*inner, generics, next);
            let count = lower::dynamic_lengths(*inner, generics).len();
            let len_doc = lower::len_json(*len, generics, next + count);
            lemma_lowered_plain(*inner, generics, next);
            match lower::array_len(*len, generics) {
                ArrayLen::Param(name) => lemma_plain_defined(name),
                _ => {},
            }
            lemma_plain_pair(inner_doc, len_doc);
            lemma_plain_single("array"@, Json::List(seq![inner_doc, len_doc]));
        },
        TypeShape::Path(p) => {
            let segments = p.path.segments@;
            if segments.len() > 0 {
                lemma_plain_defined(segments.last().ident@);
                lemma_plain_defined(builtins::normalized(lower::path_text(segments)));
                if p.path.ident() is Some {
                    lemma_plain_defined(p.path.ident()->0);
                }
                match segments[segments.len() - 1].arguments {
                    PathArguments::AngleBracketed(args) => {
                        let k = lower::first_type_index(args@);
                        if 0 <= k < args@.len() && args@[k] is Type {
                            let inner = args@[k]->Type_0;
                            lemma_lowered_plain(inner, generics, next);
                            lemma_plain_single("vec"@, lower::lowered(inner, generics, next));
                            lemma_plain_single("option"@, lower::lowered(inner, generics, next));
                        }
                    },
                    _ => {},
                }
            }
        },
        TypeShape::Other => {},
    }
}

/// The expression that is generated for a type prints the IDL form of the type
/// with the value of every length expression in its place.
pub proof fn law_generated_code_prints_the_lowered_type(
    ty: Type,
    generics: Option<&Generics>,
    lengths: spec_fn(nat) -> Seq<char>,
)
    requires
        lengths::pod_vecs_closed(ty, generics),
    ensures
        printed(
            splice::length_steps(
                json::json_text(lower::lowered(ty, generics, 0)),
                0,
                lower::dynamic_lengths(ty, generics).len(),
            ),
            lengths,
        ) == json::text_with(lower::lowered(ty, generics, 0), lengths),
{
    lemma_lowered_plain(ty, generics, 0);
    lengths::lemma_lowered_open(ty, generics, 0);
    law_generated_code_prints_the_document(
        lower::lowered(ty, generics, 0),
        lower::dynamic_lengths(ty, generics).len(),
        lengths,
    );
}

} // verus!
