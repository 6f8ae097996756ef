//! The parts of the Rust syntax that the IDL is read from.
//!
//! These types hold what the IDL rules look at: the shape of types,
//! expressions, attributes and items. Whatever is only copied into generated
//! code or printed is kept as a token stream.

use proc_macro2::{Span, TokenStream};
use vstd::prelude::*;
use vstd::string::*;

verus! {

/// A path: `a::b::<T>`.
pub struct Path {
    pub leading_colon: bool,
    pub segments: Vec<PathSegment>,
}

pub struct PathSegment {
    pub ident: String,
    pub arguments: PathArguments,
}

pub enum PathArguments {
    /// No arguments at all.
    Absent,
    /// `<'a, T, 4>`, possibly with nothing between the brackets.
    AngleBracketed(Vec<GenericArgument>),
    /// `(A, B) -> C`.
    Parenthesized,
}

pub enum GenericArgument {
    Type(Type),
    Const(Expr),
    /// A lifetime, a binding or a constraint.
    Other,
}

/// A path in a type position; `qself` tells whether it starts with `<T as ..>`.
pub struct TypePath {
    pub qself: bool,
    pub path: Path,
}

/// A type, with its tokens.
pub struct Type {
    pub shape: TypeShape,
    pub tokens: TokenStream,
}

pub enum TypeShape {
    /// `&T`.
    Reference(Box<Type>),
    /// A type between invisible delimiters.
    Group(Box<Type>),
    /// `(T)`.
    Paren(Box<Type>),
    /// `[T]`.
    Slice(Box<Type>),
    /// `[T; len]`.
    Array(Box<Type>, Box<Expr>),
    Path(TypePath),
    /// Any other type.
    Other,
}

/// An expression, with its tokens.
///
/// `nested` lists the further expressions that a walk over the expression
/// meets: those which `shape` does not name, such as the operands of an
/// operator, the statements of a block or the constants in generic arguments.
pub struct Expr {
    pub shape: ExprShape,
    pub nested: Vec<Expr>,
    pub tokens: TokenStream,
}

pub enum ExprShape {
    /// `&expr`.
    Reference(Box<Expr>),
    /// `(expr)`.
    Paren(Box<Expr>),
    /// An expression between invisible delimiters.
    Group(Box<Expr>),
    Lit(Lit),
    /// `[a, b]`.
    Array(Vec<Expr>),
    Path(ExprPath),
    /// `receiver.method(args)`.
    MethodCall(Box<Expr>, String, Vec<Expr>),
    /// `mac!(..)`.
    Macro,
    /// Any other expression.
    Other,
}

/// A path in an expression; `qself` tells whether it starts with `<T as ..>`.
pub struct ExprPath {
    pub qself: bool,
    pub path: Path,
}

pub enum Lit {
    /// A string literal, by the string that it denotes.
    Str(String),
    /// A byte string literal, by its bytes.
    ByteStr(Vec<u8>),
    /// A byte literal, by its byte.
    Byte(u8),
    /// An integer literal, by its base 10 digits.
    Int(String),
    /// Any other literal.
    Other,
}

/// The generic parameters of an item.
pub struct Generics {
    pub params: Vec<GenericParam>,
}

pub enum GenericParam {
    Type(String),
    /// A constant parameter, with the tokens of its type.
    Const(String, TokenStream),
    Lifetime,
}

/// A region of source code.
#[verifier::external_type_specification]
#[verifier::external_body]
pub struct ExSpan(Span);

/// `#[meta]`, or `#![meta]` for an inner attribute.
pub struct Attribute {
    pub inner: bool,
    pub meta: Meta,
}

pub enum Meta {
    /// `#[path]`, with the place of the path.
    Path(Path, Span),
    /// `#[path(tokens)]`, with the place of the closing delimiter.
    List(Path, TokenStream, Span),
    /// `#[path = value]`, with the place of the `=`.
    NameValue(Path, Expr, Span),
}

/// A field of a struct or of an enum variant. `cfg_attrs` holds the tokens of
/// those attributes under which the field is compiled at all.
pub struct Field {
    pub ident: Option<String>,
    pub ty: Type,
    pub attrs: Vec<Attribute>,
    pub cfg_attrs: Vec<TokenStream>,
}

pub enum Fields {
    Named(Vec<Field>),
    Unnamed(Vec<Field>),
    Unit,
}

/// A variant of an enum.
pub struct Variant {
    pub ident: String,
    pub fields: Fields,
    pub cfg_attrs: Vec<TokenStream>,
}

// ---------------------------------------------------------------------------
// Reading paths
// ---------------------------------------------------------------------------

impl PathArguments {
    /// Nothing stands between the brackets, or there are none.
    pub open spec fn spec_is_empty(self) -> bool {
        match self {
            PathArguments::Absent => true,
            PathArguments::AngleBracketed(args) => args@.len() == 0,
            PathArguments::Parenthesized => false,
        }
    }

    pub fn is_empty(&self) -> (empty: bool)
        ensures
            empty == self.spec_is_empty(),
    {
        match self {
            PathArguments::Absent => true,
            PathArguments::AngleBracketed(args) => args.len() == 0,
            PathArguments::Parenthesized => false,
        }
    }
}

impl Path {
    /// The identifier that the path consists of, if it is a single one.
    pub open spec fn ident(self) -> Option<Seq<char>> {
        if !self.leading_colon && self.segments@.len() == 1 && self.segments@[0].arguments
            is Absent {
            Some(self.segments@[0].ident@)
        } else {
            None
        }
    }

    pub fn get_ident(&self) -> (ident: Option<&String>)
        ensures
            ident matches Some(s) ==> self.ident() == Some(s@),
            ident is None ==> self.ident() is None,
    {
        if !self.leading_colon && self.segments.len() == 1 {
            if let PathArguments::Absent = &self.segments[0].arguments {
                return Some(&self.segments[0].ident);
            }
        }
        None
    }

    pub fn is_ident(&self, name: &str) -> (same: bool)
        ensures
            same == (self.ident() == Some(name@)),
    {
        match self.get_ident() {
            Some(ident) => crate::text::str_eq(ident.as_str(), name),
            None => false,
        }
    }
}

impl ExprPath {
    /// The name that the path refers to, if it is a single segment without
    /// qualification and without arguments.
    pub open spec fn bare(self) -> Option<Seq<char>> {
        if !self.qself && !self.path.leading_colon && self.path.segments@.len() == 1
            && self.path.segments@[0].arguments.spec_is_empty() {
            Some(self.path.segments@[0].ident@)
        } else {
            None
        }
    }

    pub fn bare_name(&self) -> (name: Option<&String>)
        ensures
            name matches Some(s) ==> self.bare() == Some(s@),
            name is None ==> self.bare() is None,
    {
        if !self.qself && !self.path.leading_colon && self.path.segments.len() == 1
            && self.path.segments[0].arguments.is_empty() {
            Some(&self.path.segments[0].ident)
        } else {
            None
        }
    }
}

impl Attribute {
    pub open spec fn spec_path(self) -> Path {
        match self.meta {
            Meta::Path(path, _) => path,
            Meta::List(path, _, _) => path,
            Meta::NameValue(path, _, _) => path,
        }
    }

    pub fn path(&self) -> (path: &Path)
        ensures
            *path == self.spec_path(),
    {
        match &self.meta {
            Meta::Path(path, _) => path,
            Meta::List(path, _, _) => path,
            Meta::NameValue(path, _, _) => path,
        }
    }
}

} // verus!
