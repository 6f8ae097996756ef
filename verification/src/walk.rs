//! Searching an expression and all the expressions inside it.

use crate::syntax::{Expr, ExprShape};
use crate::text;
use vstd::prelude::*;
use vstd::string::*;

verus! {

/// What an expression is searched for.
pub enum Query<'a> {
    /// A macro call.
    Macro,
    /// The name of an account field or an instruction argument, standing alone.
    Binding(&'a [String], &'a [String]),
    /// The identifier of an account field or an instruction argument, possibly
    /// behind a qualified self type.
    Input(&'a [String], &'a [String]),
}

impl<'a> Query<'a> {
    /// The expression itself is what is searched for.
    pub open spec fn hits(self, e: Expr) -> bool {
        match self {
            Query::Macro => e.shape is Macro,
            Query::Binding(fields, args) => e.shape matches ExprShape::Path(p) && (p.bare() matches Some(
                name,
            ) && (text::lists(fields@, name) || text::lists(args@, name))),
            Query::Input(fields, args) => e.shape matches ExprShape::Path(p) && (p.path.ident() matches Some(
                name,
            ) && (text::lists(fields@, name) || text::lists(args@, name))),
        }
    }

    fn check(&self, e: &Expr) -> (hit: bool)
        ensures
            hit == self.hits(*e),
    {
        match self {
            Query::Macro => match &e.shape {
                ExprShape::Macro => true,
                _ => false,
            },
            Query::Binding(fields, args) => match &e.shape {
                ExprShape::Path(path) => match path.bare_name() {
                    Some(name) => text::contains_name(fields, name.as_str())
                        || text::contains_name(args, name.as_str()),
                    None => false,
                },
                _ => false,
            },
            Query::Input(fields, args) => match &e.shape {
                ExprShape::Path(path) => match path.path.get_ident() {
                    Some(name) => text::contains_name(fields, name.as_str())
                        || text::contains_name(args, name.as_str()),
                    None => false,
                },
                _ => false,
            },
        }
    }

    /// The expression or one inside it is what is searched for.
    pub open spec fn found_in(self, e: Expr) -> bool
        decreases e,
    {
        ||| self.hits(e)
        ||| match e.shape {
            ExprShape::Reference(inner) => self.found_in(*inner),
            ExprShape::Paren(inner) => self.found_in(*inner),
            ExprShape::Group(inner) => self.found_in(*inner),
            ExprShape::Array(items) => exists|i: int|
                0 <= i < items@.len() && self.found_in(#[trigger] items@[i]),
            ExprShape::MethodCall(receiver, _, args) => self.found_in(*receiver) || exists|i: int|
                0 <= i < args@.len() && self.found_in(#[trigger] args@[i]),
            _ => false,
        }
        ||| exists|i: int| 0 <= i < e.nested@.len() && self.found_in(#[trigger] e.nested@[i])
    }

    pub(crate) fn search(&self, e: &Expr) -> (found: bool)
        ensures
            found == self.found_in(*e),
        decreases e, 0nat,
    {
        if self.check(e) {
            return true;
        }
        let inside = match &e.shape {
            ExprShape::Reference(inner) => self.search(inner),
            ExprShape::Paren(inner) => self.search(inner),
            ExprShape::Group(inner) => self.search(inner),
            ExprShape::Array(items) => self.search_all(items),
            ExprShape::MethodCall(receiver, _, args) => self.search(receiver) || self.search_all(
                args,
            ),
            _ => false,
        };
        inside || self.search_all(&e.nested)
    }

    fn search_all(&self, es: &Vec<Expr>) -> (found: bool)
        ensures
            found == exists|i: int| 0 <= i < es@.len() && self.found_in(#[trigger] es@[i]),
        decreases es, 0nat,
    {
        let mut i: usize = 0;
        while i < es.len()
            invariant
                i <= es@.len(),
                forall|k: int| 0 <= k < i ==> !self.found_in(#[trigger] es@[k]),
            decreases es@.len() - i,
        {
            if self.search(&es[i]) {
                return true;
            }
            i = i + 1;
        }
        false
    }
}

/// The expression contains a macro call.
pub fn expr_contains_macro(expr: &Expr) -> (found: bool)
    ensures
        found == Query::Macro.found_in(*expr),
{
    let query = Query::Macro;
    query.search(expr)
}

/// The expression mentions an account field or an instruction argument by its
/// name.
pub fn expr_references_local_binding(
    expr: &Expr,
    field_names: &[String],
    ix_arg_names: &[String],
) -> (found: bool)
    ensures
        found == Query::Binding(field_names, ix_arg_names).found_in(*expr),
{
    let query = Query::Binding(field_names, ix_arg_names);
    query.search(expr)
}

/// The value of the expression depends on an account field or an instruction
/// argument, which are known only at runtime.
pub fn expr_references_runtime_seed_inputs(
    expr: &Expr,
    field_names: &[String],
    ix_arg_names: &[String],
) -> (found: bool)
    ensures
        found == Query::Input(field_names, ix_arg_names).found_in(*expr),
{
    let query = Query::Input(field_names, ix_arg_names);
    query.search(expr)
}

// ---------------------------------------------------------------------------
// Laws
// ---------------------------------------------------------------------------

/// The two queries are after the same: each expression that one of them hits,
/// this one or one inside it, the other hits too.
pub open spec fn hit_alike(q: Query, r: Query, e: Expr) -> bool
    decreases e,
{
    &&& q.hits(e) == r.hits(e)
    &&& match e.shape {
        ExprShape::Reference(inner) => hit_alike(q, r, *inner),
        ExprShape::Paren(inner) => hit_alike(q, r, *inner),
        ExprShape::Group(inner) => hit_alike(q, r, *inner),
        ExprShape::Array(items) => forall|i: int|
            0 <= i < items@.len() ==> hit_alike(q, r, #[trigger] items@[i]),
        ExprShape::MethodCall(receiver, _, args) => hit_alike(q, r, *receiver) && forall|i: int|
            0 <= i < args@.len() ==> hit_alike(q, r, #[trigger] args@[i]),
        _ => true,
    }
    &&& forall|i: int| 0 <= i < e.nested@.len() ==> hit_alike(q, r, #[trigger] e.nested@[i])
}

proof fn lemma_found_alike(q: Query, r: Query, e: Expr)
    requires
        hit_alike(q, r, e),
    ensures
        q.found_in(e) == r.found_in(e),
    decreases e,
{
    match e.shape {
        ExprShape::Reference(inner) => lemma_found_alike(q, r, *inner),
        ExprShape::Paren(inner) => lemma_found_alike(q, r, *inner),
        ExprShape::Group(inner) => lemma_found_alike(q, r, *inner),
        ExprShape::Array(items) => {
            assert forall|i: int| 0 <= i < items@.len() implies q.found_in(#[trigger] items@[i])
                == r.found_in(items@[i]) by {
                lemma_found_alike(q, r, items@[i]);
            }
        },
        ExprShape::MethodCall(receiver, _, args) => {
            lemma_found_alike(q, r, *receiver);
            assert forall|i: int| 0 <= i < args@.len() implies q.found_in(#[trigger] args@[i])
                == r.found_in(args@[i]) by {
                lemma_found_alike(q, r, args@[i]);
            }
        },
        _ => {},
    }
    assert forall|i: int| 0 <= i < e.nested@.len() implies q.found_in(#[trigger] e.nested@[i])
        == r.found_in(e.nested@[i]) by {
        lemma_found_alike(q, r, e.nested@[i]);
    }
}

/// Queries that hit the same expressions do so in every expression.
proof fn lemma_hit_alike(q: Query, r: Query, e: Expr)
    requires
        forall|x: Expr| #[trigger] q.hits(x) == r.hits(x),
    ensures
        hit_alike(q, r, e),
    decreases e,
{
    match e.shape {
        ExprShape::Reference(inner) => lemma_hit_alike(q, r, *inner),
        ExprShape::Paren(inner) => lemma_hit_alike(q, r, *inner),
        ExprShape::Group(inner) => lemma_hit_alike(q, r, *inner),
        ExprShape::Array(items) => {
            assert forall|i: int| 0 <= i < items@.len() implies hit_alike(
                q,
                r,
                #[trigger] items@[i],
            ) by {
                lemma_hit_alike(q, r, items@[i]);
            }
        },
        ExprShape::MethodCall(receiver, _, args) => {
            lemma_hit_alike(q, r, *receiver);
            assert forall|i: int| 0 <= i < args@.len() implies hit_alike(
                q,
                r,
                #[trigger] args@[i],
            ) by {
                lemma_hit_alike(q, r, args@[i]);
            }
        },
        _ => {},
    }
    assert forall|i: int| 0 <= i < e.nested@.len() implies hit_alike(
        q,
        r,
        #[trigger] e.nested@[i],
    ) by {
        lemma_hit_alike(q, r, e.nested@[i]);
    }
}

/// An expression mentions a field or an argument by its name exactly if its
/// value depends on one. Only a listed name behind a qualified self type, or
/// with empty angle brackets, is found by one of the searches and not by the
/// other.
pub proof fn law_searches_agree(e: Expr, fields: &[String], args: &[String])
    requires
        hit_alike(Query::Binding(fields, args), Query::Input(fields, args), e),
    ensures
        Query::Binding(fields, args).found_in(e) == Query::Input(fields, args).found_in(e),
{
    lemma_found_alike(Query::Binding(fields, args), Query::Input(fields, args), e);
}

/// A name is found whichever of the two lists it stands in.
pub proof fn law_lists_are_interchangeable(e: Expr, fields: &[String], args: &[String])
    ensures
        Query::Binding(fields, args).found_in(e) == Query::Binding(args, fields).found_in(e),
        Query::Input(fields, args).found_in(e) == Query::Input(args, fields).found_in(e),
{
    lemma_hit_alike(Query::Binding(fields, args), Query::Binding(args, fields), e);
    lemma_found_alike(Query::Binding(fields, args), Query::Binding(args, fields), e);
    lemma_hit_alike(Query::Input(fields, args), Query::Input(args, fields), e);
    lemma_found_alike(Query::Input(fields, args), Query::Input(args, fields), e);
}

} // verus!
