//! Documentation lines.

use crate::json::{self, Json};
use crate::syntax::{Attribute, ExprShape, Lit, Meta};
use crate::text;
use serde_json::Value;
use vstd::prelude::*;
use vstd::string::*;

verus! {

/// The text without the blank that it starts with, if it does.
pub open spec fn unindented(s: Seq<char>) -> Seq<char> {
    if s.len() > 0 && s[0] == ' ' {
        s.skip(1)
    } else {
        s
    }
}

/// The line of `#[doc = "line"]`; no other attribute has one.
pub open spec fn doc_line(attr: Attribute) -> Option<Seq<char>> {
    match attr.meta {
        Meta::NameValue(path, value, _) => match value.shape {
            ExprShape::Lit(Lit::Str(s)) => if path.ident() == Some("doc"@) {
                Some(unindented(s@))
            } else {
                None
            },
            _ => None,
        },
        _ => None,
    }
}

/// The lines of the attributes that have one, in order.
pub open spec fn doc_lines(attrs: Seq<Attribute>) -> Seq<Seq<char>>
    decreases attrs.len(),
{
    if attrs.len() == 0 {
        Seq::empty()
    } else {
        match doc_line(attrs.last()) {
            Some(line) => doc_lines(attrs.drop_last()).push(line),
            None => doc_lines(attrs.drop_last()),
        }
    }
}

fn unindent(s: &String) -> (line: String)
    ensures
        line@ == unindented(s@),
{
    let n: usize = s.as_str().unicode_len();
    if n > 0 && s.as_str().get_char(0) == ' ' {
        let rest = s.as_str().substring_char(1, n);
        assert(rest@ =~= s@.skip(1));
        rest.to_owned()
    } else {
        s.as_str().to_owned()
    }
}

/// Extracts the `#[doc = "..."]` lines from a list of attributes. `/// foo`
/// stands for `#[doc = " foo"]`; the leading blank is stripped so that readers
/// of the IDL see no extra indentation.
pub fn extract_doc_lines(attrs: &[Attribute]) -> (lines: Vec<String>)
    ensures
        text::views(lines@) == doc_lines(attrs@),
{
    let mut lines: Vec<String> = Vec::new();
    let mut i: usize = 0;
    assert(attrs@.take(0) =~= Seq::empty());
    assert(text::views(lines@) =~= Seq::empty());
    while i < attrs.len()
        invariant
            i <= attrs@.len(),
            text::views(lines@) == doc_lines(attrs@.take(i as int)),
        decreases attrs@.len() - i,
    {
        let ghost before = lines@;
        let attr = &attrs[i];
        proof {
            assert(attrs@.take(i + 1).drop_last() =~= attrs@.take(i as int));
            assert(attrs@.take(i + 1).last() == attrs@[i as int]);
        }
        if attr.path().is_ident("doc") {
            if let Meta::NameValue(_, value, _) = &attr.meta {
                if let ExprShape::Lit(Lit::Str(s)) = &value.shape {
                    lines.push(unindent(s));
                    assert(text::views(lines@) =~= text::views(before).push(unindented(s@)));
                }
            }
        }
        i = i + 1;
    }
    assert(attrs@.take(i as int) =~= attrs@);
    lines
}

/// A list of strings.
pub open spec fn docs_json(docs: Seq<Seq<char>>) -> Json {
    Json::List(Seq::new(docs.len(), |i: int| Json::Text(docs[i])))
}

pub(crate) fn docs_value(docs: &[String]) -> (value: Value)
    ensures
        json::value_text(value) == json::json_text(docs_json(text::views(docs@))),
{
    let mut values: Vec<Value> = Vec::new();
    let mut i: usize = 0;
    while i < docs.len()
        invariant
            i <= docs@.len(),
            values@.len() == i,
            forall|k: int|
                0 <= k < i ==> #[trigger] json::value_text(values@[k]) == json::json_text(
                    Json::Text(docs@[k]@),
                ),
        decreases docs@.len() - i,
    {
        values.push(json::text_json(docs[i].as_str()));
        i = i + 1;
    }
    let ghost list = Seq::new(docs@.len(), |i: int| Json::Text(text::views(docs@)[i]));
    json::list_json(values, Ghost(list))
}

/// The lines as a JSON array.
pub fn docs_to_json_array(docs: &[String]) -> (text: String)
    ensures
        text@ == json::json_text(docs_json(text::views(docs@))),
{
    json::value_to_string(&docs_value(docs))
}

/// The lines of attributes that follow each other follow each other.
pub proof fn law_doc_lines_keep_their_order(a: Seq<Attribute>, b: Seq<Attribute>)
    ensures
        doc_lines(a + b) == doc_lines(a) + doc_lines(b),
    decreases b.len(),
{
    if b.len() == 0 {
        assert(a + b =~= a);
        assert(doc_lines(a) + doc_lines(b) =~= doc_lines(a));
    } else {
        assert((a + b).drop_last() =~= a + b.drop_last());
        law_doc_lines_keep_their_order(a, b.drop_last());
        assert(doc_lines(a + b) =~= doc_lines(a) + doc_lines(b));
    }
}

/// Different lists of lines print as different arrays: nothing is lost.
pub proof fn law_doc_lists_are_lossless(a: Seq<Seq<char>>, b: Seq<Seq<char>>)
    requires
        json::json_text(docs_json(a)) == json::json_text(docs_json(b)),
    ensures
        a == b,
{
    let markers = |i: nat| json::marker_text(i);
    let left = Seq::new(a.len(), |i: int| json::quoted(a[i]));
    let right = Seq::new(b.len(), |i: int| json::quoted(b[i]));
    json::lemma_item_texts(docs_json(a)->List_0, markers);
    json::lemma_item_texts(docs_json(b)->List_0, markers);
    assert(json::item_texts(docs_json(a)->List_0, markers) =~= left);
    assert(json::item_texts(docs_json(b)->List_0, markers) =~= right);
    assert forall|i: int| 0 <= i < left.len() implies json::starts_item(#[trigger] left[i]) by {
        json::lemma_literals_are_separable(a[i], a[i]);
    }
    assert forall|i: int| 0 <= i < right.len() implies json::starts_item(#[trigger] right[i]) by {
        json::lemma_literals_are_separable(b[i], b[i]);
    }
    assert forall|i: int, k: int|
        0 <= i < left.len() && 0 <= k < right.len() implies json::separable(
        #[trigger] left[i],
        #[trigger] right[k],
    ) by {
        json::lemma_literals_are_separable(a[i], b[k]);
    }
    json::lemma_arrays_are_lossless(left, right, Seq::empty(), Seq::empty());
    assert forall|i: int| 0 <= i < a.len() implies a[i] == b[i] by {
        assert(left[i] == right[i]);
        json::law_string_literals_are_lossless(a[i], b[i]);
    }
    assert(a =~= b);
}

/// An attribute has a line exactly if it is `doc = "text"`, the attribute being
/// named `doc` alone. The line is the text, without one blank at its start.
pub proof fn law_doc_attributes_have_a_line(attr: Attribute)
    ensures
        ({
            let lines = doc_lines(seq![attr]);
            match attr.meta {
                Meta::NameValue(path, value, _) => {
                    let named = !path.leading_colon && path.segments@.len() == 1
                        && path.segments@[0].arguments is Absent && path.segments@[0].ident@
                        == "doc"@;
                    match value.shape {
                        ExprShape::Lit(Lit::Str(s)) => if !named {
                            lines.len() == 0
                        } else if s@.len() > 0 && s@[0] == ' ' {
                            lines.len() == 1 && s@ == seq![' '] + lines[0]
                        } else {
                            lines == seq![s@]
                        },
                        _ => lines.len() == 0,
                    }
                },
                _ => lines.len() == 0,
            }
        }),
{
    assert(seq![attr].drop_last() =~= Seq::empty());
    assert(doc_lines(Seq::empty()) =~= Seq::empty());
    match attr.meta {
        Meta::NameValue(path, value, _) => {
            match value.shape {
                ExprShape::Lit(Lit::Str(s)) => {
                    if s@.len() > 0 && s@[0] == ' ' {
                        assert(s@ =~= seq![' '] + s@.skip(1));
                    }
                    if path.ident() == Some("doc"@) {
                        assert(doc_lines(seq![attr]) =~= seq![unindented(s@)]);
                    }
                },
                _ => {},
            }
        },
        _ => {},
    }
}

/// Lines print as a JSON array of string literals, in order.
pub proof fn law_doc_lists_are_arrays_of_strings(lines: Seq<Seq<char>>)
    ensures
        json::json_text(docs_json(lines)) == json::array_text(
            Seq::new(lines.len(), |i: int| json::quoted(lines[i])),
        ),
{
    let markers = |i: nat| json::marker_text(i);
    json::lemma_item_texts(docs_json(lines)->List_0, markers);
    assert(json::item_texts(docs_json(lines)->List_0, markers) =~= Seq::new(
        lines.len(),
        |i: int| json::quoted(lines[i]),
    ));
}

} // verus!
