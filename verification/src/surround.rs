//! The text around the fields of a type definition.
//!
//! A header is split at the first place where its marker stands. The proofs
//! here show that this is the place that the marker was put in, unless a name
//! or a documentation line holds the marker itself.

use crate::docs;
use crate::fill;
use crate::json::{self, Json};
use crate::lengths;
use crate::slots;
use crate::symbols::{self, Sym};
use crate::syntax::{GenericParam, Generics};
use crate::text;
use crate::tokens;
use crate::typedefs::{self, TypeKind};
use vstd::prelude::*;
use vstd::string::*;

verus! {

// ---------------------------------------------------------------------------
// Strings that hold a marker
// ---------------------------------------------------------------------------

/// The string is the marker, or ends with a quote and the marker.
pub open spec fn holds_marker(s: Seq<char>, marker: Seq<char>) -> bool {
    s == marker || s.len() > marker.len() && s.skip(s.len() - marker.len() - 1) == seq!['"']
        + marker
}

/// A text of characters that stand for themselves, the first of which is in no
/// escape sequence.
spec fn is_marker(m: Seq<char>) -> bool {
    m.len() > 0 && m[0] == '_' && forall|i: int| 0 <= i < m.len() ==> json::is_plain(#[trigger] m[i])
}

proof fn lemma_escapes(c: char)
    ensures
        json::is_plain(c) ==> json::escaped_char(c) == seq![c],
        !json::is_plain(c) ==> json::escaped_char(c).len() > 1 && json::escaped_char(c)[0] == '\\'
            && forall|i: int|
            0 <= i < json::escaped_char(c).len() ==> #[trigger] json::escaped_char(c)[i] != '_',
        json::escaped_char(c).last() == '"' ==> c == '"',
{
    let chunk = json::escaped_char(c);
    if !json::is_plain(c) {
        assert forall|i: int| 0 <= i < chunk.len() implies #[trigger] chunk[i] != '_' by {}
    }
}

/// A string literal that ends with the marker is that of a string which ends
/// with it.
proof fn lemma_escaped_suffix(s: Seq<char>, t: Seq<char>)
    requires
        is_marker(t),
        t.len() <= json::escaped(s).len(),
        json::escaped(s).skip(json::escaped(s).len() - t.len()) == t,
    ensures
        t.len() <= s.len(),
        s.skip(s.len() - t.len()) == t,
        json::escaped(s.take(s.len() - t.len())) == json::escaped(s).take(
            json::escaped(s).len() - t.len(),
        ),
    decreases t.len(),
{
    let e = json::escaped(s);
    let front = json::escaped(s.drop_last());
    let c = s.last();
    let chunk = json::escaped_char(c);
    let cut = e.len() - t.len();
    assert(s.len() > 0);
    lemma_escapes(c);
    assert forall|i: int| 0 <= i < t.len() implies t[i] == #[trigger] e[cut + i] by {
        assert(e.skip(cut)[i] == e[cut + i]);
    }
    if !json::is_plain(c) {
        if chunk.len() <= t.len() {
            let i = t.len() - chunk.len();
            assert(e[cut + i] == chunk[0]);
            assert(json::is_plain(t[i as int]));
        } else {
            assert(e[cut + 0] == chunk[chunk.len() - t.len()]);
        }
        assert(false);
    }
    assert(e[cut + (t.len() - 1)] == c);
    assert(e.drop_last() =~= front);
    if t.len() == 1 {
        assert(s.take(s.len() - 1) =~= s.drop_last());
        assert(s.skip(s.len() - 1) =~= t);
        assert(e.take(cut) =~= front);
    } else {
        let rest = t.drop_last();
        assert(front.skip(front.len() - rest.len()) =~= rest) by {
            assert forall|i: int| 0 <= i < rest.len() implies front.skip(
                front.len() - rest.len(),
            )[i] == rest[i] by {
                assert(t[i] == e[cut + i]);
            }
        }
        assert forall|i: int| 0 <= i < rest.len() implies json::is_plain(#[trigger] rest[i]) by {
            assert(rest[i] == t[i]);
        }
        lemma_escaped_suffix(s.drop_last(), rest);
        let n = s.len() - t.len();
        assert(s.drop_last().take(n) =~= s.take(n));
        assert(s.skip(n) =~= t) by {
            assert forall|i: int| 0 <= i < t.len() implies s.skip(n)[i] == t[i] by {
                if i < rest.len() {
                    assert(s.drop_last().skip(n)[i] == rest[i]);
                }
            }
        }
        assert(e.take(cut) =~= front.take(cut));
    }
}

spec fn avoids(s: Seq<char>, q: Seq<char>) -> bool {
    forall|k: int| !#[trigger] text::occurs_at(s, q, k)
}

/// The literal of a string that does not hold the marker does not contain the
/// literal of the marker.
proof fn lemma_quoted_avoids(s: Seq<char>, m: Seq<char>)
    requires
        is_marker(m),
        !holds_marker(s, m),
    ensures
        avoids(json::quoted(s), json::quoted(m)),
{
    let e = json::escaped(s);
    let whole = json::quoted(s);
    let q = json::quoted(m);
    json::lemma_quoted_plain(m);
    json::law_string_literals_are_well_formed(s);
    assert forall|k: int| !#[trigger] text::occurs_at(whole, q, k) by {
        if text::occurs_at(whole, q, k) {
            let found = whole.subrange(k, k + q.len());
            let end = k + m.len() + 1;
            assert(found[m.len() as int] == m.last() && found[m.len() as int + 1] == '"');
            assert(whole[end] == '"' && whole[end - 1] == m.last());
            assert(json::is_plain(m[m.len() - 1]));
            if end < whole.len() - 1 {
                assert(e[end - 1] == '"');
                assert(e[end - 2] == '\\');
                assert(whole[end - 1] == e[end - 2]);
            }
            assert(end == whole.len() - 1);
            assert(e.skip(e.len() - m.len()) =~= m) by {
                assert forall|i: int| 0 <= i < m.len() implies e.skip(e.len() - m.len())[i]
                    == m[i] by {
                    assert(found[i + 1] == m[i]);
                }
            }
            lemma_escaped_suffix(s, m);
            let n = s.len() - m.len();
            if k == 0 {
                assert(e.take(e.len() - m.len()) =~= Seq::empty());
                if n > 0 {
                    lemma_escapes(s.take(n).last());
                }
                assert(s.skip(0) =~= s);
            } else {
                let head = s.take(n);
                assert(found[0] == '"');
                assert(json::escaped(head).last() == e[k - 1]);
                assert(e[k - 1] == whole[k]);
                assert(head.len() > 0);
                lemma_escapes(head.last());
                assert(json::escaped_char(head.last()).last() == '"');
                assert(s[n - 1] == '"');
                assert(s.skip(n - 1) =~= seq!['"'] + m) by {
                    assert forall|i: int| 0 <= i < m.len() + 1 implies s.skip(n - 1)[i] == (seq![
                        '"',
                    ] + m)[i] by {
                        if i > 0 {
                            assert(s.skip(n)[i - 1] == m[i - 1]);
                        }
                    }
                }
            }
        }
    }
}

// ---------------------------------------------------------------------------
// Texts that avoid a literal
// ---------------------------------------------------------------------------

/// The characters that stand between the strings of a document.
spec fn is_separator(c: char) -> bool {
    c == '[' || c == ']' || c == '{' || c == '}' || c == ',' || c == ':' || c == '#'
}

/// A string literal without separators.
spec fn is_sought(q: Seq<char>) -> bool {
    q.len() > 1 && q[0] == '"' && forall|i: int| 0 <= i < q.len() ==> !is_separator(#[trigger] q[i])
}

proof fn lemma_avoids_add(a: Seq<char>, c: char, b: Seq<char>, q: Seq<char>)
    requires
        is_sought(q),
        is_separator(c),
        avoids(a, q),
        avoids(b, q),
    ensures
        avoids(a + seq![c] + b, q),
{
    let s = a + seq![c] + b;
    assert forall|k: int| !#[trigger] text::occurs_at(s, q, k) by {
        if text::occurs_at(s, q, k) {
            let found = s.subrange(k, k + q.len());
            if k + q.len() <= a.len() {
                assert(a.subrange(k, k + q.len()) =~= found);
                assert(text::occurs_at(a, q, k));
            } else if k > a.len() {
                let j = k - a.len() - 1;
                assert(b.subrange(j, j + q.len()) =~= found);
                assert(text::occurs_at(b, q, j));
            } else {
                assert(found[a.len() - k] == c);
                assert(!is_separator(q[a.len() - k]));
            }
        }
    }
}

proof fn lemma_avoids_empty(q: Seq<char>)
    requires
        is_sought(q),
    ensures
        avoids(Seq::empty(), q),
{
    assert forall|k: int| !#[trigger] text::occurs_at(Seq::empty(), q, k) by {}
}

proof fn lemma_avoids_quoteless(s: Seq<char>, q: Seq<char>)
    requires
        is_sought(q),
        forall|i: int| 0 <= i < s.len() ==> #[trigger] s[i] != '"',
    ensures
        avoids(s, q),
{
    assert forall|k: int| !#[trigger] text::occurs_at(s, q, k) by {
        if text::occurs_at(s, q, k) {
            assert(s.subrange(k, k + q.len())[0] == s[k]);
        }
    }
}

proof fn lemma_avoids_joined(parts: Seq<Seq<char>>, q: Seq<char>)
    requires
        is_sought(q),
        forall|i: int| 0 <= i < parts.len() ==> avoids(#[trigger] parts[i], q),
    ensures
        avoids(json::joined(parts, ','), q),
    decreases parts.len(),
{
    lemma_avoids_empty(q);
    if parts.len() == 1 {
        assert(avoids(parts[0], q));
    } else if parts.len() > 1 {
        assert forall|i: int| 0 <= i < parts.drop_last().len() implies avoids(
            #[trigger] parts.drop_last()[i],
            q,
        ) by {
            assert(parts.drop_last()[i] == parts[i]);
        }
        lemma_avoids_joined(parts.drop_last(), q);
        assert(avoids(parts[parts.len() - 1], q));
        lemma_avoids_add(json::joined(parts.drop_last(), ','), ',', parts.last(), q);
    }
}

proof fn lemma_avoids_enclosed(open: char, s: Seq<char>, close: char, q: Seq<char>)
    requires
        is_sought(q),
        is_separator(open),
        is_separator(close),
        avoids(s, q),
    ensures
        avoids(seq![open] + s + seq![close], q),
{
    lemma_avoids_empty(q);
    lemma_avoids_add(Seq::empty(), open, s, q);
    assert(Seq::<char>::empty() + seq![open] + s =~= seq![open] + s);
    lemma_avoids_add(seq![open] + s, close, Seq::empty(), q);
    assert(seq![open] + s + seq![close] + Seq::<char>::empty() =~= seq![open] + s + seq![close]);
}

/// No string and no key of the document holds the marker.
pub open spec fn strings_free(j: Json, marker: Seq<char>) -> bool
    decreases j,
{
    match j {
        Json::Text(s) => !holds_marker(s, marker),
        Json::List(items) => forall|i: int|
            0 <= i < items.len() ==> strings_free(#[trigger] items[i], marker),
        Json::Object(fields) => forall|i: int|
            0 <= i < fields.len() ==> !holds_marker((#[trigger] fields[i]).0, marker)
                && strings_free(fields[i].1, marker),
        _ => true,
    }
}

proof fn lemma_avoids_text(j: Json, marker: Seq<char>)
    requires
        is_marker(marker),
        is_sought(json::quoted(marker)),
        strings_free(j, marker),
    ensures
        avoids(json::text_with(j, |i: nat| symbols::hash(i)), json::quoted(marker)),
    decreases j,
{
    let hashes = |i: nat| symbols::hash(i);
    let q = json::quoted(marker);
    match j {
        Json::True => lemma_avoids_quoteless(seq!['t', 'r', 'u', 'e'], q),
        Json::Number(n) => {
            json::lemma_decimal_digits(n);
            lemma_avoids_quoteless(json::decimal(n), q);
        },
        Json::Text(s) => lemma_quoted_avoids(s, marker),
        Json::Length(i) => lemma_avoids_quoteless(symbols::hash(i), q),
        Json::List(items) => {
            let parts = json::item_texts(items, hashes);
            json::lemma_item_texts(items, hashes);
            assert forall|i: int| 0 <= i < parts.len() implies avoids(#[trigger] parts[i], q) by {
                assert(strings_free(items[i], marker));
                lemma_avoids_text(items[i], marker);
            }
            lemma_avoids_joined(parts, q);
            lemma_avoids_enclosed('[', json::joined(parts, ','), ']', q);
        },
        Json::Object(fields) => {
            let texts = json::field_texts(fields, hashes);
            let entries = json::inserted(Seq::empty(), texts);
            let parts = json::entry_texts(entries);
            let ok = |key: Seq<char>, value: Seq<char>|
                !holds_marker(key, marker) && avoids(value, q);
            json::lemma_field_texts(fields, hashes);
            assert forall|i: int| 0 <= i < texts.len() implies ok(
                (#[trigger] texts[i]).0,
                texts[i].1,
            ) by {
                assert(strings_free(fields[i].1, marker));
                lemma_avoids_text(fields[i].1, marker);
            }
            json::lemma_inserted_all(Seq::empty(), texts, ok);
            assert forall|i: int| 0 <= i < parts.len() implies avoids(#[trigger] parts[i], q) by {
                let (key, value) = entries[i];
                assert(ok(entries[i].0, entries[i].1));
                lemma_quoted_avoids(key, marker);
                lemma_avoids_add(json::quoted(key), ':', value, q);
            }
            lemma_avoids_joined(parts, q);
            lemma_avoids_enclosed('{', json::joined(parts, ','), '}', q);
        },
    }
}

// ---------------------------------------------------------------------------
// Open places between brackets
// ---------------------------------------------------------------------------

/// Before every open place stands an opening bracket.
spec fn bracketed(syms: Seq<Sym>) -> bool {
    forall|p: int|
        0 <= p < syms.len() && #[trigger] syms[p] is Length ==> p > 0 && syms[p - 1]
            == symbols::char_sym('[')
}

proof fn lemma_bracketed_add(a: Seq<Sym>, b: Seq<Sym>)
    requires
        bracketed(a),
        bracketed(b),
    ensures
        bracketed(a + b),
{
    let s = a + b;
    assert forall|p: int| 0 <= p < s.len() && #[trigger] s[p] is Length implies p > 0 && s[p - 1]
        == symbols::char_sym('[') by {
        if p >= a.len() {
            assert(b[p - a.len()] is Length);
        } else {
            assert(a[p] is Length);
        }
    }
}

proof fn lemma_bracketed_one(c: char)
    ensures
        bracketed(seq![symbols::char_sym(c)]),
{
}

proof fn lemma_bracketed_markless(syms: Seq<Sym>)
    requires
        symbols::marks(syms).len() == 0,
    ensures
        bracketed(syms),
    decreases syms.len(),
{
    if syms.len() > 0 {
        lemma_bracketed_markless(syms.drop_last());
        assert forall|p: int| 0 <= p < syms.len() && #[trigger] syms[p] is Length implies p > 0
            && syms[p - 1] == symbols::char_sym('[') by {
            if p < syms.len() - 1 {
                assert(syms.drop_last()[p] is Length);
            }
        }
    }
}

proof fn lemma_bracketed_joined(parts: Seq<Seq<Sym>>)
    requires
        forall|i: int| 0 <= i < parts.len() ==> bracketed(#[trigger] parts[i]),
    ensures
        bracketed(json::joined(parts, symbols::char_sym(','))),
    decreases parts.len(),
{
    let comma = symbols::char_sym(',');
    if parts.len() == 1 {
        assert(bracketed(parts[0]));
    } else if parts.len() > 1 {
        let head = json::joined(parts.drop_last(), comma);
        assert forall|i: int| 0 <= i < parts.drop_last().len() implies bracketed(
            #[trigger] parts.drop_last()[i],
        ) by {
            assert(parts.drop_last()[i] == parts[i]);
        }
        lemma_bracketed_joined(parts.drop_last());
        lemma_bracketed_one(',');
        lemma_bracketed_add(head, seq![comma]);
        assert(bracketed(parts[parts.len() - 1]));
        lemma_bracketed_add(head + seq![comma], parts.last());
    }
}

proof fn lemma_bracketed_object(fields: Seq<(Seq<char>, Json)>)
    requires
        forall|i: int|
            0 <= i < fields.len() ==> bracketed(symbols::flat((#[trigger] fields[i]).1)),
    ensures
        bracketed(symbols::flat(Json::Object(fields))),
{
    let syms = symbols::field_syms(fields);
    let entries = json::inserted(Seq::empty(), syms);
    let parts = symbols::all_entry_syms(entries);
    let ok = |key: Seq<char>, value: Seq<Sym>| bracketed(value);
    symbols::lemma_field_syms(fields);
    assert forall|i: int| 0 <= i < syms.len() implies ok((#[trigger] syms[i]).0, syms[i].1) by {
        assert(bracketed(symbols::flat(fields[i].1)));
    }
    json::lemma_inserted_all(Seq::empty(), syms, ok);
    assert forall|i: int| 0 <= i < parts.len() implies bracketed(#[trigger] parts[i]) by {
        let (key, value) = entries[i];
        let head = seq![Sym::Text(json::quoted(key))];
        assert(ok(entries[i].0, entries[i].1));
        lemma_bracketed_one(':');
        assert(bracketed(head));
        lemma_bracketed_add(head, seq![symbols::char_sym(':')]);
        lemma_bracketed_add(head + seq![symbols::char_sym(':')], value);
    }
    let inner = json::joined(parts, symbols::char_sym(','));
    lemma_bracketed_joined(parts);
    lemma_bracketed_one('{');
    lemma_bracketed_one('}');
    lemma_bracketed_add(seq![symbols::char_sym('{')], inner);
    lemma_bracketed_add(seq![symbols::char_sym('{')] + inner, seq![symbols::char_sym('}')]);
}

proof fn lemma_bracketed_slot()
    ensures
        bracketed(symbols::flat(slots::slot())),
{
    let items = seq![Json::Length(0)];
    let syms = symbols::flat(slots::slot());
    symbols::lemma_item_syms(items);
    assert(symbols::item_syms(items)[0] == seq![Sym::Length(0)]);
    assert(syms =~= seq![symbols::char_sym('['), Sym::Length(0), symbols::char_sym(']')]);
}

// ---------------------------------------------------------------------------
// Splitting at the marker
// ---------------------------------------------------------------------------

/// Splitting the text at the marker gives what stands before and after the open
/// place.
proof fn lemma_split_at_slot(j: Json, marker: Seq<char>, filler: Seq<char>)
    requires
        is_marker(marker),
        is_sought(json::quoted(marker)),
        lengths::open_in(j) == seq![0nat],
        bracketed(symbols::flat(j)),
        strings_free(j, marker),
    ensures
        text::spec_split_once(
            json::text_with(j, |i: nat| json::quoted(marker)),
            json::quoted(marker),
        ) matches Some((before, after)) && before + filler + after == json::text_with(
            j,
            |i: nat| filler,
        ),
{
    let q = json::quoted(marker);
    let marked = |i: nat| q;
    let filled = |i: nat| filler;
    let hashes = |i: nat| symbols::hash(i);
    let syms = symbols::flat(j);
    let all = symbols::marks(syms);
    symbols::lemma_flat(j, marked);
    symbols::lemma_flat(j, filled);
    symbols::lemma_flat(j, hashes);
    lemma_avoids_text(j, marker);
    let p = symbols::lemma_mark_place(syms, 0);
    assert(all.take(0) =~= Seq::<nat>::empty());
    assert(all.skip(1) =~= Seq::<nat>::empty());
    symbols::lemma_expand_at(syms, p, marked);
    symbols::lemma_expand_at(syms, p, filled);
    symbols::lemma_expand_at(syms, p, hashes);
    fill::lemma_expand_markless(syms.take(p), marked, filled);
    fill::lemma_expand_markless(syms.take(p), marked, hashes);
    fill::lemma_expand_markless(syms.skip(p + 1), marked, filled);
    let head = symbols::expand(syms.take(p), marked);
    let tail = symbols::expand(syms.skip(p + 1), marked);
    let whole = symbols::expand(syms, marked);
    let skeleton = symbols::expand(syms, hashes);
    assert(syms[p] is Length);
    assert(syms[p - 1] == symbols::char_sym('['));
    assert(syms.take(p).last() == syms[p - 1]);
    assert(head.len() > 0 && head.last() == '[');
    assert(whole == head + q + tail);
    assert(whole.subrange(head.len() as int, head.len() as int + q.len()) =~= q);
    assert(text::occurs_at(whole, q, head.len() as int));
    assert forall|k: int| 0 <= k < head.len() implies !#[trigger] text::occurs_at(whole, q, k) by {
        if text::occurs_at(whole, q, k) {
            let found = whole.subrange(k, k + q.len());
            if k + q.len() <= head.len() {
                assert(skeleton.subrange(k, k + q.len()) =~= found);
                assert(text::occurs_at(skeleton, q, k));
            } else {
                assert(found[head.len() - 1 - k] == '[');
                assert(!is_separator(q[head.len() - 1 - k]));
            }
        }
    }
    text::lemma_find_is(whole, q, head.len());
    assert(whole.take(head.len() as int) =~= head);
    assert(whole.skip(head.len() as int + q.len()) =~= tail);
}

// ---------------------------------------------------------------------------
// Type definitions
// ---------------------------------------------------------------------------

proof fn lemma_field_marker()
    ensures
        is_marker(typedefs::FIELD_MARKER@),
        is_sought(json::quoted(typedefs::FIELD_MARKER@)),
        typedefs::FIELD_MARKER@.len() == 25,
{
    reveal_strlit("__anchor_private_fields__");
    json::lemma_quoted_plain(typedefs::FIELD_MARKER@);
}

proof fn lemma_short_strings_are_free(s: Seq<char>)
    requires
        s.len() < 25,
    ensures
        !holds_marker(s, typedefs::FIELD_MARKER@),
{
    lemma_field_marker();
}

/// No name and no type in the generic parameters holds the marker.
pub open spec fn params_free(params: Seq<GenericParam>, marker: Seq<char>) -> bool {
    forall|i: int|
        0 <= i < params.len() ==> match #[trigger] params[i] {
            GenericParam::Type(name) => !holds_marker(name@, marker),
            GenericParam::Const(name, ty) => !holds_marker(name@, marker) && !holds_marker(
                text::unspaced(tokens::stream_text(ty)),
                marker,
            ),
            GenericParam::Lifetime => true,
        }
}

proof fn lemma_params_free(params: Seq<GenericParam>)
    requires
        params_free(params, typedefs::FIELD_MARKER@),
    ensures
        forall|i: int|
            0 <= i < typedefs::generic_docs(params).len() ==> strings_free(
                #[trigger] typedefs::generic_docs(params)[i],
                typedefs::FIELD_MARKER@,
            ),
    decreases params.len(),
{
    let marker = typedefs::FIELD_MARKER@;
    if params.len() > 0 {
        let front = params.drop_last();
        assert forall|i: int| 0 <= i < front.len() implies match #[trigger] front[i] {
            GenericParam::Type(name) => !holds_marker(name@, marker),
            GenericParam::Const(name, ty) => !holds_marker(name@, marker) && !holds_marker(
                text::unspaced(tokens::stream_text(ty)),
                marker,
            ),
            GenericParam::Lifetime => true,
        } by {
            assert(front[i] == params[i]);
        }
        lemma_params_free(front);
        assert(params.last() == params[params.len() - 1]);
        match typedefs::generic_param_json(params.last()) {
            Some(doc) => {
                lemma_words_are_free();
                let fields = doc->Object_0;
                assert forall|i: int| 0 <= i < fields.len() implies !holds_marker(
                    (#[trigger] fields[i]).0,
                    marker,
                ) && strings_free(fields[i].1, marker) by {}
                assert(strings_free(doc, marker));
                let all = typedefs::generic_docs(params);
                assert forall|i: int| 0 <= i < all.len() implies strings_free(
                    #[trigger] all[i],
                    marker,
                ) by {
                    if i < all.len() - 1 {
                        assert(strings_free(typedefs::generic_docs(front)[i], marker));
                    }
                }
            },
            None => {},
        }
    }
}

/// The words that every type definition is made of do not hold the marker.
proof fn lemma_words_are_free()
    ensures
        !holds_marker("name"@, typedefs::FIELD_MARKER@),
        !holds_marker("docs"@, typedefs::FIELD_MARKER@),
        !holds_marker("generics"@, typedefs::FIELD_MARKER@),
        !holds_marker("serialization"@, typedefs::FIELD_MARKER@),
        !holds_marker("bytemuck"@, typedefs::FIELD_MARKER@),
        !holds_marker("repr"@, typedefs::FIELD_MARKER@),
        !holds_marker("kind"@, typedefs::FIELD_MARKER@),
        !holds_marker("c"@, typedefs::FIELD_MARKER@),
        !holds_marker("packed"@, typedefs::FIELD_MARKER@),
        !holds_marker("align"@, typedefs::FIELD_MARKER@),
        !holds_marker("type"@, typedefs::FIELD_MARKER@),
        !holds_marker("const"@, typedefs::FIELD_MARKER@),
        !holds_marker("struct"@, typedefs::FIELD_MARKER@),
        !holds_marker("enum"@, typedefs::FIELD_MARKER@),
        !holds_marker("fields"@, typedefs::FIELD_MARKER@),
        !holds_marker("variants"@, typedefs::FIELD_MARKER@),
{
    reveal_strlit("name");
    reveal_strlit("docs");
    reveal_strlit("generics");
    reveal_strlit("serialization");
    reveal_strlit("bytemuck");
    reveal_strlit("repr");
    reveal_strlit("kind");
    reveal_strlit("c");
    reveal_strlit("packed");
    reveal_strlit("align");
    reveal_strlit("type");
    reveal_strlit("const");
    reveal_strlit("struct");
    reveal_strlit("enum");
    reveal_strlit("fields");
    reveal_strlit("variants");
    lemma_short_strings_are_free("name"@);
    lemma_short_strings_are_free("docs"@);
    lemma_short_strings_are_free("generics"@);
    lemma_short_strings_are_free("serialization"@);
    lemma_short_strings_are_free("bytemuck"@);
    lemma_short_strings_are_free("repr"@);
    lemma_short_strings_are_free("kind"@);
    lemma_short_strings_are_free("c"@);
    lemma_short_strings_are_free("packed"@);
    lemma_short_strings_are_free("align"@);
    lemma_short_strings_are_free("type"@);
    lemma_short_strings_are_free("const"@);
    lemma_short_strings_are_free("struct"@);
    lemma_short_strings_are_free("enum"@);
    lemma_short_strings_are_free("fields"@);
    lemma_short_strings_are_free("variants"@);
}

proof fn lemma_header_free(
    name: Seq<char>,
    lines: Seq<String>,
    kind: TypeKind,
    generics: Generics,
)
    requires
        header_free(name, lines, generics),
    ensures
        forall|i: int|
            0 <= i < typedefs::header_fields(name, lines, kind, generics).len() ==> !holds_marker(
                (#[trigger] typedefs::header_fields(name, lines, kind, generics)[i]).0,
                typedefs::FIELD_MARKER@,
            ) && strings_free(
                typedefs::header_fields(name, lines, kind, generics)[i].1,
                typedefs::FIELD_MARKER@,
            ),
{
    let marker = typedefs::FIELD_MARKER@;
    let fields = typedefs::header_fields(name, lines, kind, generics);
    let params = typedefs::generic_docs(generics.params@);
    let docs_doc = docs::docs_json(text::views(lines));
    lemma_words_are_free();
    lemma_params_free(generics.params@);
    assert(strings_free(Json::List(params), marker));
    assert(strings_free(docs_doc, marker)) by {
        let items = docs_doc->List_0;
        assert forall|i: int| 0 <= i < items.len() implies strings_free(
            #[trigger] items[i],
            marker,
        ) by {
            assert(items[i] == Json::Text(lines[i]@));
        }
    }
    let kind_fields = typedefs::kind_fields(kind);
    assert forall|i: int| 0 <= i < kind_fields.len() implies !holds_marker(
        (#[trigger] kind_fields[i]).0,
        marker,
    ) && strings_free(kind_fields[i].1, marker) by {
        match kind {
            TypeKind::Borsh => {},
            TypeKind::BytemuckRepr(repr) => {
                let inner = typedefs::repr_fields(repr);
                assert forall|k: int| 0 <= k < inner.len() implies !holds_marker(
                    (#[trigger] inner[k]).0,
                    marker,
                ) && strings_free(inner[k].1, marker) by {}
                assert(strings_free(Json::Object(inner), marker));
            },
        }
    }
    assert forall|i: int| 0 <= i < fields.len() implies !holds_marker(
        (#[trigger] fields[i]).0,
        marker,
    ) && strings_free(fields[i].1, marker) by {
        let front = fields.len() - kind_fields.len();
        if i >= front {
            assert(fields[i] == kind_fields[i - front]);
        } else {
            assert(fields[i] == ("name"@, Json::Text(name)) || fields[i] == ("docs"@, docs_doc)
                || fields[i] == ("generics"@, Json::List(params)));
        }
    }
}

/// No name, no documentation line and no generic parameter of the header holds
/// the marker.
pub open spec fn header_free(name: Seq<char>, lines: Seq<String>, generics: Generics) -> bool {
    &&& !holds_marker(name, typedefs::FIELD_MARKER@)
    &&& forall|i: int|
        0 <= i < lines.len() ==> !holds_marker((#[trigger] lines[i])@, typedefs::FIELD_MARKER@)
    &&& params_free(generics.params@, typedefs::FIELD_MARKER@)
}

/// The two texts that a type definition is split into stand around its fields
/// or variants: with the texts of these between them, separated by commas, they
/// are the type definition whose payload prints as the array of the texts. Only
/// a name or a documentation line that holds the marker can be taken for the
/// place of the payload.
pub proof fn law_type_def_parts_surround_the_payload(
    name: Seq<char>,
    lines: Seq<String>,
    kind: TypeKind,
    generics: Generics,
    kind_name: Seq<char>,
    texts: Seq<Seq<char>>,
)
    requires
        kind_name == "struct"@ || kind_name == "enum"@,
        header_free(name, lines, generics),
    ensures
        typedefs::header_parts(name, lines, kind, generics, kind_name) matches Some(
            (prefix, suffix),
        ) && prefix + json::joined(texts, ',') + suffix == json::text_with(
            typedefs::type_def_json(name, lines, kind, generics, kind_name, Json::Length(0)),
            |i: nat| json::array_text(texts),
        ),
{
    let marker = typedefs::FIELD_MARKER@;
    let filler = json::joined(texts, ',');
    let filled = |i: nat| filler;
    let whole = slots::type_def_slot(name, lines, kind, generics, kind_name);
    let head = typedefs::header_fields(name, lines, kind, generics);
    let inner = typedefs::type_fields(kind_name, slots::slot());
    let fields = head.push(("type"@, Json::Object(inner)));

    lemma_field_marker();
    lemma_words_are_free();
    lemma_header_free(name, lines, kind, generics);
    assert(strings_free(slots::slot(), marker)) by {
        assert(strings_free(Json::Length(0), marker));
    }
    assert forall|i: int| 0 <= i < inner.len() implies !holds_marker(
        (#[trigger] inner[i]).0,
        marker,
    ) && strings_free(inner[i].1, marker) by {}
    assert(strings_free(Json::Object(inner), marker));
    assert forall|i: int| 0 <= i < fields.len() implies !holds_marker(
        (#[trigger] fields[i]).0,
        marker,
    ) && strings_free(fields[i].1, marker) by {
        if i < head.len() {
            assert(fields[i] == head[i]);
        }
    }
    assert(strings_free(whole, marker));

    lemma_bracketed_slot();
    lengths::lemma_leaf(Json::Text(kind_name));
    lemma_bracketed_markless(symbols::flat(Json::Text(kind_name)));
    assert forall|i: int| 0 <= i < inner.len() implies bracketed(
        symbols::flat((#[trigger] inner[i]).1),
    ) by {}
    lemma_bracketed_object(inner);
    slots::lemma_header_fields_closed(name, lines, kind, generics);
    assert forall|i: int| 0 <= i < fields.len() implies bracketed(
        symbols::flat((#[trigger] fields[i]).1),
    ) by {
        if i < head.len() {
            assert(fields[i] == head[i]);
            lemma_bracketed_markless(symbols::flat(head[i].1));
        }
    }
    lemma_bracketed_object(fields);

    slots::lemma_type_def_open(name, lines, kind, generics, kind_name);
    lemma_split_at_slot(whole, marker, filler);
    slots::lemma_marker_fills_slot(marker);
    slots::lemma_type_def_text(
        name,
        lines,
        kind,
        generics,
        kind_name,
        typedefs::marker_list(marker),
        slots::slot(),
        |i: nat| json::marker_text(i),
        |i: nat| json::quoted(marker),
    );
    lemma_slot_text(filler);
    slots::lemma_type_def_text(
        name,
        lines,
        kind,
        generics,
        kind_name,
        slots::slot(),
        Json::Length(0),
        filled,
        |i: nat| json::array_text(texts),
    );
}

proof fn lemma_slot_text(filler: Seq<char>)
    ensures
        json::text_with(slots::slot(), |i: nat| filler) == seq!['['] + filler + seq![']'],
{
    let filled = |i: nat| filler;
    json::lemma_item_texts(seq![Json::Length(0)], filled);
    assert(json::item_texts(seq![Json::Length(0)], filled) =~= seq![filler]);
}

// ---------------------------------------------------------------------------
// Variants
// ---------------------------------------------------------------------------

/// The fields of a variant are printed before its name.
proof fn lemma_variant_text(name: Seq<char>, payload: Json, lengths: spec_fn(nat) -> Seq<char>)
    ensures
        json::text_with(typedefs::variant_json(name, payload), lengths) == seq!['{']
            + json::quoted("fields"@) + seq![':'] + json::text_with(payload, lengths) + (seq![',']
            + json::quoted("name"@) + seq![':'] + json::quoted(name) + seq!['}']),
{
    reveal_strlit("fields");
    reveal_strlit("name");
    let fields = seq![("name"@, Json::Text(name)), ("fields"@, payload)];
    let texts = json::field_texts(fields, lengths);
    let named = ("name"@, json::quoted(name));
    let filled = ("fields"@, json::text_with(payload, lengths));
    json::lemma_field_texts(fields, lengths);
    assert(texts =~= seq![named, filled]);
    assert("fields"@[0] == 'f' && "name"@[0] == 'n');
    assert(json::str_less("fields"@, "name"@));
    assert(json::entry_insert(Seq::empty(), named.0, named.1) =~= seq![named]);
    assert(json::entry_insert(seq![named], filled.0, filled.1) =~= seq![filled, named]);
    assert(texts.drop_first() =~= seq![filled]);
    assert(seq![filled].drop_first() =~= Seq::empty());
    assert(json::inserted(seq![filled, named], Seq::empty()) == seq![filled, named]);
    assert(json::inserted(seq![named], seq![filled]) == seq![filled, named]);
    assert(json::inserted(Seq::empty(), texts) == seq![filled, named]);
    let parts = json::entry_texts(seq![filled, named]);
    let first = json::entry_text(filled.0, filled.1);
    let second = json::entry_text(named.0, named.1);
    assert(parts.drop_last() =~= seq![first]);
    assert(json::joined(seq![first], ',') == first);
    assert(json::joined(parts, ',') == first + seq![','] + second);
    assert(json::object_text(seq![filled, named]) =~= seq!['{'] + json::quoted("fields"@) + seq![
        ':',
    ] + filled.1 + (seq![','] + json::quoted("name"@) + seq![':'] + json::quoted(name) + seq![
        '}',
    ]));
}

/// The two texts that a variant is split into stand around its fields, whatever
/// its name.
pub proof fn law_variant_parts_surround_the_fields(name: Seq<char>, texts: Seq<Seq<char>>)
    ensures
        typedefs::variant_parts(name) matches Some((prefix, suffix)) && prefix + json::joined(
            texts,
            ',',
        ) + suffix == json::text_with(
            typedefs::variant_json(name, Json::Length(0)),
            |i: nat| json::array_text(texts),
        ),
{
    reveal_strlit("__anchor_private_variant_fields__");
    reveal_strlit("fields");
    let marker = typedefs::VARIANT_FIELD_MARKER@;
    let markers = |i: nat| json::marker_text(i);
    let q = json::quoted(marker);
    let filler = json::joined(texts, ',');
    let filled = |i: nat| json::array_text(texts);
    let head = seq!['{'] + json::quoted("fields"@) + seq![':'] + seq!['['];
    let tail = seq![']'] + (seq![','] + json::quoted("name"@) + seq![':'] + json::quoted(name)
        + seq!['}']);
    let whole = json::json_text(typedefs::variant_json(name, typedefs::marker_list(marker)));
    json::lemma_quoted_plain(marker);
    json::lemma_quoted_plain("fields"@);
    lemma_variant_text(name, typedefs::marker_list(marker), markers);
    lemma_variant_text(name, Json::Length(0), filled);
    json::lemma_item_texts(seq![Json::Text(marker)], markers);
    assert(json::item_texts(seq![Json::Text(marker)], markers) =~= seq![q]);
    assert(whole =~= head + q + tail);
    assert(head.len() == 11 && head[10] == '[');
    assert(whole.subrange(11, 11int + q.len()) =~= q);
    assert(text::occurs_at(whole, q, 11));
    assert forall|k: int| 0 <= k < 11 implies !#[trigger] text::occurs_at(whole, q, k) by {
        if text::occurs_at(whole, q, k) {
            assert(whole.subrange(k, k + q.len())[10 - k] == whole[10]);
            assert(q[10 - k] != '[');
        }
    }
    text::lemma_find_is(whole, q, 11);
    assert(whole.take(11) =~= head);
    assert(whole.skip(11int + q.len()) =~= tail);
    assert(head + filler + tail =~= json::text_with(
        typedefs::variant_json(name, Json::Length(0)),
        filled,
    ));
}

} // verus!
