//! Lowering of Rust types to IDL types.

use crate::builtins;
use crate::json::{self, Json};
use crate::syntax::{
    Expr, ExprShape, GenericArgument, GenericParam, Generics, Lit, Path, PathArguments,
    PathSegment, Type, TypePath, TypeShape,
};
use crate::text;
use crate::tokens;
use serde_json::Value;
use vstd::prelude::*;
use vstd::string::*;

verus! {

// ---------------------------------------------------------------------------
// What a type lowers to
// ---------------------------------------------------------------------------

/// `{"defined":{"name":name}}`.
pub open spec fn defined(name: Seq<char>) -> Json {
    Json::Object(seq![("defined"@, Json::Object(seq![("name"@, Json::Text(name))]))])
}

/// `{"generic":name}`.
pub open spec fn generic(name: Seq<char>) -> Json {
    Json::Object(seq![("generic"@, Json::Text(name))])
}

/// The identifiers of a path with `::` between them.
pub open spec fn path_text(segments: Seq<PathSegment>) -> Seq<char>
    decreases segments.len(),
{
    if segments.len() == 0 {
        Seq::empty()
    } else if segments.len() == 1 {
        segments[0].ident@
    } else {
        path_text(segments.drop_last()) + "::"@ + segments.last().ident@
    }
}

pub open spec fn has_type_param(generics: Option<&Generics>, name: Seq<char>) -> bool {
    generics matches Some(g) && exists|i: int|
        0 <= i < g.params@.len() && (#[trigger] g.params@[i] matches GenericParam::Type(p) && p@
            == name)
}

pub open spec fn has_const_param(generics: Option<&Generics>, name: Seq<char>) -> bool {
    generics matches Some(g) && exists|i: int|
        0 <= i < g.params@.len() && (#[trigger] g.params@[i] matches GenericParam::Const(p, _)
            && p@ == name)
}

/// The expression inside parentheses and invisible groups.
pub open spec fn peeled(e: Expr) -> Expr
    decreases e,
{
    match e.shape {
        ExprShape::Group(inner) => peeled(*inner),
        ExprShape::Paren(inner) => peeled(*inner),
        _ => e,
    }
}

/// How the length of an array is known.
pub enum ArrayLen {
    /// As a number.
    Number(nat),
    /// As a constant parameter of the item.
    Param(Seq<char>),
    /// Only when the IDL is built, as the value of an expression.
    Dynamic(Expr),
}

pub open spec fn array_len(e: Expr, generics: Option<&Generics>) -> ArrayLen {
    let e = peeled(e);
    match e.shape {
        ExprShape::Lit(Lit::Int(digits)) => match text::parsed_number(digits@, usize::MAX as nat) {
            Some(n) => ArrayLen::Number(n),
            None => ArrayLen::Dynamic(e),
        },
        ExprShape::Path(p) => match p.path.ident() {
            Some(name) => if !p.qself && has_const_param(generics, name) {
                ArrayLen::Param(name)
            } else {
                ArrayLen::Dynamic(e)
            },
            None => ArrayLen::Dynamic(e),
        },
        _ => ArrayLen::Dynamic(e),
    }
}

/// A length in the IDL, `next` lengths having been left open before it.
pub open spec fn len_json(e: Expr, generics: Option<&Generics>, next: nat) -> Json {
    match array_len(e, generics) {
        ArrayLen::Number(n) => Json::Number(n),
        ArrayLen::Param(name) => generic(name),
        ArrayLen::Dynamic(_) => Json::Length(next),
    }
}

pub open spec fn is_u8(ty: Type) -> bool {
    ty.shape matches TypeShape::Path(p) && !p.qself && builtins::normalized(path_text(p.path.segments@))
        == "u8"@
}

/// The place of the first type among generic arguments, their number if there
/// is none.
pub open spec fn first_type_index(args: Seq<GenericArgument>) -> int
    decreases args.len(),
{
    if args.len() == 0 || args[0] is Type {
        0
    } else {
        1 + first_type_index(args.drop_first())
    }
}

/// The arguments between the angle brackets of a segment.
pub open spec fn angle_args(segment: PathSegment) -> Seq<GenericArgument> {
    match segment.arguments {
        PathArguments::AngleBracketed(args) => args@,
        _ => Seq::empty(),
    }
}

/// The IDL form of `PodVec<element, max>`.
pub open spec fn pod_vec_json(element: Json, max: Seq<char>) -> Json {
    Json::Object(
        seq![
            (
                "defined"@,
                Json::Object(
                    seq![
                        ("name"@, Json::Text("PodVec"@)),
                        (
                            "generics"@,
                            Json::List(
                                seq![
                                    Json::Object(
                                        seq![("kind"@, Json::Text("type"@)), ("type"@, element)],
                                    ),
                                    Json::Object(
                                        seq![
                                            ("kind"@, Json::Text("const"@)),
                                            ("value"@, Json::Text(max)),
                                        ],
                                    ),
                                ],
                            ),
                        ),
                    ],
                ),
            ),
        ],
    )
}

/// The generic arguments of a `PodVec<T, N>` path: two of them, a type and a
/// constant.
pub open spec fn is_pod_vec(path: Path) -> bool {
    &&& path.segments@.len() > 0
    &&& path.segments@.last().ident@ == "PodVec"@
    &&& angle_args(path.segments@.last()).len() == 2
    &&& angle_args(path.segments@.last())[0] is Type
    &&& angle_args(path.segments@.last())[1] is Const
}

/// The IDL form of a type that is a `PodVec`, possibly behind references.
pub open spec fn pod_vec(ty: Type) -> Option<Json>
    decreases ty, 0nat,
{
    match ty.shape {
        TypeShape::Group(inner) => pod_vec(*inner),
        TypeShape::Paren(inner) => pod_vec(*inner),
        TypeShape::Reference(inner) => pod_vec(*inner),
        TypeShape::Path(p) => {
            let segments = p.path.segments@;
            if is_pod_vec(p.path) {
                match segments[segments.len() - 1].arguments {
                    PathArguments::AngleBracketed(args) => match (args@[0], args@[1]) {
                        (GenericArgument::Type(element), GenericArgument::Const(max)) => Some(
                            pod_vec_json(
                                pod_element(element),
                                text::unspaced(tokens::stream_text(max.tokens)),
                            ),
                        ),
                        _ => None,
                    },
                    _ => None,
                }
            } else {
                None
            }
        },
        _ => None,
    }
}

/// The IDL form of the element type of a `PodVec`: the plain-old-data wrappers
/// stay what they are.
pub open spec fn pod_element(ty: Type) -> Json
    decreases ty, 2nat,
{
    match ty.shape {
        TypeShape::Path(p) => if p.path.segments@.len() > 0 && builtins::pod_scalar(
            builtins::normalized(p.path.segments@.last().ident@),
        ) is Some {
            defined(p.path.segments@.last().ident@)
        } else {
            lowered(ty, None, 0)
        },
        _ => lowered(ty, None, 0),
    }
}

/// The IDL form of a type inside an item with the given generic parameters,
/// `next` array lengths having been left open before it.
pub open spec fn lowered(ty: Type, generics: Option<&Generics>, next: nat) -> Json
    decreases ty, 1nat,
{
    match pod_vec(ty) {
        Some(j) => j,
        None => match ty.shape {
            TypeShape::Reference(inner) => lowered(*inner, generics, next),
            TypeShape::Group(inner) => lowered(*inner, generics, next),
            TypeShape::Paren(inner) => lowered(*inner, generics, next),
            TypeShape::Slice(inner) => if is_u8(*inner) {
                Json::Text("bytes"@)
            } else {
                Json::Object(seq![("vec"@, lowered(*inner, generics, next))])
            },
            TypeShape::Array(inner, len) => Json::Object(
                seq![
                    (
                        "array"@,
                        Json::List(
                            seq![
                                lowered(*inner, generics, next),
                                len_json(
                                    *len,
                                    generics,
                                    next + dynamic_lengths(*inner, generics).len(),
                                ),
                            ],
                        ),
                    ),
                ],
            ),
            TypeShape::Path(p) => {
                let segments = p.path.segments@;
                let path = builtins::normalized(path_text(segments));
                if segments.len() == 0 {
                    defined(text::unspaced(tokens::stream_text(ty.tokens)))
                } else if p.path.ident() is Some && has_type_param(generics, p.path.ident()->0) {
                    generic(p.path.ident()->0)
                } else if builtins::is_scalar(path) {
                    Json::Text(path)
                } else if builtins::pod_scalar(path) is Some {
                    Json::Text(builtins::pod_scalar(path)->0)
                } else if builtins::is_string(path) {
                    Json::Text("string"@)
                } else if builtins::is_pubkey(path) {
                    Json::Text("pubkey"@)
                } else if builtins::is_container(path) {
                    match segments[segments.len() - 1].arguments {
                        PathArguments::AngleBracketed(args) => {
                            let k = first_type_index(args@);
                            if 0 <= k < args@.len() && args@[k] is Type {
                                let inner = lowered(args@[k]->Type_0, generics, next);
                                if path == "Vec"@ {
                                    Json::Object(seq![("vec"@, inner)])
                                } else if path == "Option"@ {
                                    Json::Object(seq![("option"@, inner)])
                                } else {
                                    inner
                                }
                            } else {
                                defined(path)
                            }
                        },
                        _ => defined(path),
                    }
                } else {
                    defined(segments.last().ident@)
                }
            },
            TypeShape::Other => defined(text::unspaced(tokens::stream_text(ty.tokens))),
        },
    }
}

/// The expressions of the array lengths that lowering a type leaves open, in
/// the order in which their places appear.
pub open spec fn dynamic_lengths(ty: Type, generics: Option<&Generics>) -> Seq<Expr>
    decreases ty,
{
    if pod_vec(ty) is Some {
        Seq::empty()
    } else {
        match ty.shape {
            TypeShape::Reference(inner) => dynamic_lengths(*inner, generics),
            TypeShape::Group(inner) => dynamic_lengths(*inner, generics),
            TypeShape::Paren(inner) => dynamic_lengths(*inner, generics),
            TypeShape::Slice(inner) => if is_u8(*inner) {
                Seq::empty()
            } else {
                dynamic_lengths(*inner, generics)
            },
            TypeShape::Array(inner, len) => match array_len(*len, generics) {
                ArrayLen::Dynamic(e) => dynamic_lengths(*inner, generics).push(e),
                _ => dynamic_lengths(*inner, generics),
            },
            TypeShape::Path(p) => {
                let segments = p.path.segments@;
                let path = builtins::normalized(path_text(segments));
                if segments.len() > 0 && !(p.path.ident() is Some && has_type_param(
                    generics,
                    p.path.ident()->0,
                )) && builtins::is_container(path) {
                    match segments[segments.len() - 1].arguments {
                        PathArguments::AngleBracketed(args) => {
                            let k = first_type_index(args@);
                            if 0 <= k < args@.len() && args@[k] is Type {
                                dynamic_lengths(args@[k]->Type_0, generics)
                            } else {
                                Seq::empty()
                            }
                        },
                        _ => Seq::empty(),
                    }
                } else {
                    Seq::empty()
                }
            },
            TypeShape::Other => Seq::empty(),
        }
    }
}

// ---------------------------------------------------------------------------
// Reading types
// ---------------------------------------------------------------------------

fn defined_value(name: &str) -> (value: Value)
    ensures
        json::value_text(value) == json::json_text(defined(name@)),
{
    let ghost inner_doc = seq![("name"@, Json::Text(name@))];
    let ghost doc = seq![("defined"@, Json::Object(inner_doc))];
    let inner = json::object_json(vec![("name", json::text_json(name))], Ghost(inner_doc));
    json::object_json(vec![("defined", inner)], Ghost(doc))
}

fn generic_value(name: &str) -> (value: Value)
    ensures
        json::value_text(value) == json::json_text(generic(name@)),
{
    let ghost doc = seq![("generic"@, Json::Text(name@))];
    json::object_json(vec![("generic", json::text_json(name))], Ghost(doc))
}

/// The identifiers of a type path with `::` between them.
pub fn path_name(ty: &TypePath) -> (name: String)
    ensures
        name@ == path_text(ty.path.segments@),
{
    let segments = &ty.path.segments;
    let mut name = String::new();
    let mut i: usize = 0;
    while i < segments.len()
        invariant
            i <= segments@.len(),
            name@ == path_text(segments@.take(i as int)),
        decreases segments@.len() - i,
    {
        if i > 0 {
            name.append("::");
        }
        name.append(segments[i].ident.as_str());
        i = i + 1;
        proof {
            let head = segments@.take(i as int);
            assert(head.drop_last() =~= segments@.take(i - 1));
            assert(head.last() == segments@[i - 1]);
            assert(name@ =~= path_text(head));
        }
    }
    assert(segments@.take(i as int) =~= segments@);
    name
}

pub proof fn lemma_first_type_index(args: Seq<GenericArgument>, k: int)
    requires
        0 <= k <= args.len(),
        forall|i: int| 0 <= i < k ==> !(#[trigger] args[i] is Type),
        k == args.len() || args[k] is Type,
    ensures
        first_type_index(args) == k,
    decreases args.len(),
{
    if k > 0 {
        assert(!(args[0] is Type));
        assert forall|i: int| 0 <= i < k - 1 implies !(#[trigger] args.drop_first()[i] is Type) by {
            assert(args.drop_first()[i] == args[i + 1]);
        }
        lemma_first_type_index(args.drop_first(), k - 1);
    }
}

/// The first type among the generic arguments of a segment.
pub fn first_type_arg(segment: &PathSegment) -> (ty: Option<&Type>)
    ensures
        ({
            let args = angle_args(*segment);
            let k = first_type_index(args);
            match ty {
                Some(t) => 0 <= k < args.len() && args[k] == GenericArgument::Type(*t),
                None => k == args.len(),
            }
        }),
{
    if let PathArguments::AngleBracketed(args) = &segment.arguments {
        let mut i: usize = 0;
        while i < args.len()
            invariant
                i <= args@.len(),
                angle_args(*segment) == args@,
                forall|k: int| 0 <= k < i ==> !(#[trigger] args@[k] is Type),
            decreases args@.len() - i,
        {
            if let GenericArgument::Type(ty) = &args[i] {
                proof {
                    lemma_first_type_index(args@, i as int);
                }
                return Some(ty);
            }
            i = i + 1;
        }
        proof {
            lemma_first_type_index(args@, args@.len() as int);
        }
    }
    None
}

/// The type is `u8`, by whatever path it is known.
pub fn is_u8_path(ty: &Type) -> (yes: bool)
    ensures
        yes == is_u8(*ty),
{
    match &ty.shape {
        TypeShape::Path(path) => {
            let name = path_name(path);
            !path.qself && text::str_eq(builtins::normalize_builtin_path(name.as_str()), "u8")
        },
        _ => false,
    }
}

/// The expression inside parentheses and invisible groups.
pub fn peel_expr(expr: &Expr) -> (inner: &Expr)
    ensures
        *inner == peeled(*expr),
    decreases expr,
{
    match &expr.shape {
        ExprShape::Group(group) => peel_expr(group),
        ExprShape::Paren(paren) => peel_expr(paren),
        _ => expr,
    }
}

fn find_type_param(generics: Option<&Generics>, name: &str) -> (found: bool)
    ensures
        found == has_type_param(generics, name@),
{
    if let Some(g) = generics {
        let params = &g.params;
        let mut i: usize = 0;
        while i < params.len()
            invariant
                i <= params@.len(),
                generics == Some(g),
                *params == g.params,
                forall|k: int|
                    0 <= k < i ==> !(#[trigger] params@[k] matches GenericParam::Type(p) && p@
                        == name@),
            decreases params@.len() - i,
        {
            if let GenericParam::Type(param) = &params[i] {
                if text::str_eq(param.as_str(), name) {
                    return true;
                }
            }
            i = i + 1;
        }
    }
    false
}

fn find_const_param(generics: Option<&Generics>, name: &str) -> (found: bool)
    ensures
        found == has_const_param(generics, name@),
{
    if let Some(g) = generics {
        let params = &g.params;
        let mut i: usize = 0;
        while i < params.len()
            invariant
                i <= params@.len(),
                generics == Some(g),
                *params == g.params,
                forall|k: int|
                    0 <= k < i ==> !(#[trigger] params@[k] matches GenericParam::Const(p, _) && p@
                        == name@),
            decreases params@.len() - i,
        {
            if let GenericParam::Const(param, _) = &params[i] {
                if text::str_eq(param.as_str(), name) {
                    return true;
                }
            }
            i = i + 1;
        }
    }
    false
}

// ---------------------------------------------------------------------------
// Lowering
// ---------------------------------------------------------------------------

/// Lowers types to their IDL form. An array length that is known only when the
/// IDL is built is left open and its expression remembered.
pub struct TypeLowerer<'a> {
    pub generics: Option<&'a Generics>,
    pub dynamic_lengths: Vec<&'a Expr>,
}

impl<'a> Default for TypeLowerer<'a> {
    fn default() -> (lowerer: Self)
        ensures
            lowerer.generics is None,
            lowerer.open_lengths() == Seq::<Expr>::empty(),
    {
        let lowerer = TypeLowerer { generics: None, dynamic_lengths: Vec::new() };
        assert(lowerer.open_lengths() =~= Seq::<Expr>::empty());
        lowerer
    }
}

impl<'a> TypeLowerer<'a> {
    /// The expressions of the lengths that were left open so far.
    pub open spec fn open_lengths(self) -> Seq<Expr> {
        Seq::new(self.dynamic_lengths@.len(), |i: int| *self.dynamic_lengths@[i])
    }

    pub fn with_generics(generics: &'a Generics) -> (lowerer: Self)
        ensures
            lowerer.generics == Some(generics),
            lowerer.open_lengths() == Seq::<Expr>::empty(),
    {
        let lowerer = TypeLowerer { generics: Some(generics), dynamic_lengths: Vec::new() };
        assert(lowerer.open_lengths() =~= Seq::<Expr>::empty());
        lowerer
    }

    /// The IDL form of a type.
    pub fn lower(&mut self, ty: &'a Type) -> (value: Value)
        ensures
            json::value_text(value) == json::json_text(
                lowered(*ty, old(self).generics, old(self).open_lengths().len()),
            ),
            final(self).generics == old(self).generics,
            final(self).open_lengths() == old(self).open_lengths() + dynamic_lengths(
                *ty,
                old(self).generics,
            ),
        decreases ty, 1nat,
    {
        if let Some(value) = pod_vec_type_to_idl_value(ty) {
            assert(self.open_lengths() + Seq::<Expr>::empty() =~= self.open_lengths());
            return value;
        }
        match &ty.shape {
            TypeShape::Reference(inner) => self.lower(inner),
            TypeShape::Group(inner) => self.lower(inner),
            TypeShape::Paren(inner) => self.lower(inner),
            TypeShape::Slice(inner) => {
                if is_u8_path(inner) {
                    assert(self.open_lengths() + Seq::<Expr>::empty() =~= self.open_lengths());
                    json::text_json("bytes")
                } else {
                    let ghost inner_doc = lowered(**inner, self.generics, self.open_lengths().len());
                    let ghost doc = seq![("vec"@, inner_doc)];
                    let value = self.lower(inner);
                    json::object_json(vec![("vec", value)], Ghost(doc))
                }
            },
            TypeShape::Array(inner, len) => {
                let ghost next = self.open_lengths().len();
                let ghost inner_doc = lowered(**inner, self.generics, next);
                let inner_value = self.lower(inner);
                let ghost len_doc = len_json(**len, self.generics, self.open_lengths().len());
                let len_value = self.lower_array_len(len);
                let ghost pair_doc = seq![inner_doc, len_doc];
                let ghost doc = seq![("array"@, Json::List(pair_doc))];
                let pair = json::list_json(vec![inner_value, len_value], Ghost(pair_doc));
                proof {
                    match array_len(**len, self.generics) {
                        ArrayLen::Dynamic(e) => {
                            assert(self.open_lengths() =~= old(self).open_lengths()
                                + dynamic_lengths(**inner, self.generics).push(e));
                        },
                        _ => {},
                    }
                }
                json::object_json(vec![("array", pair)], Ghost(doc))
            },
            TypeShape::Path(path) => self.lower_path(ty, path),
            TypeShape::Other => {
                assert(self.open_lengths() + Seq::<Expr>::empty() =~= self.open_lengths());
                let printed = tokens::stream_to_string(&ty.tokens);
                let name = text::without_spaces(printed.as_str());
                defined_value(name.as_str())
            },
        }
    }

    /// The IDL form of an array length.
    pub fn lower_array_len(&mut self, expr: &'a Expr) -> (value: Value)
        ensures
            json::value_text(value) == json::json_text(
                len_json(*expr, old(self).generics, old(self).open_lengths().len()),
            ),
            final(self).generics == old(self).generics,
            final(self).open_lengths() == (match array_len(*expr, old(self).generics) {
                ArrayLen::Dynamic(e) => old(self).open_lengths().push(e),
                _ => old(self).open_lengths(),
            }),
    {
        let expr = peel_expr(expr);
        match &expr.shape {
            ExprShape::Lit(Lit::Int(digits)) => {
                if let Some(len) = text::parse_number(digits.as_str(), usize::MAX) {
                    return json::number_json(len);
                }
            },
            ExprShape::Path(path) => {
                if let Some(ident) = path.path.get_ident() {
                    if !path.qself && find_const_param(self.generics, ident.as_str()) {
                        return generic_value(ident.as_str());
                    }
                }
            },
            _ => {},
        }
        let value = marker_value(self.dynamic_lengths.len());
        self.dynamic_lengths.push(expr);
        assert(self.open_lengths() =~= old(self).open_lengths().push(*expr));
        value
    }

    /// The IDL form of `ty`, which is the path `path`.
    fn lower_path(&mut self, ty: &'a Type, path: &'a TypePath) -> (value: Value)
        requires
            ty.shape == TypeShape::Path(*path),
            pod_vec(*ty) is None,
        ensures
            json::value_text(value) == json::json_text(
                lowered(*ty, old(self).generics, old(self).open_lengths().len()),
            ),
            final(self).generics == old(self).generics,
            final(self).open_lengths() == old(self).open_lengths() + dynamic_lengths(
                *ty,
                old(self).generics,
            ),
        decreases ty, 0nat,
    {
        assert(self.open_lengths() + Seq::<Expr>::empty() =~= self.open_lengths());
        let segments = &path.path.segments;
        let n: usize = segments.len();
        if n == 0 {
            let printed = tokens::stream_to_string(&ty.tokens);
            let name = text::without_spaces(printed.as_str());
            return defined_value(name.as_str());
        }
        let segment = &segments[n - 1];
        let full_name = path_name(path);
        let name = builtins::normalize_builtin_path(full_name.as_str());
        proof {
            builtins::lemma_containers_are_no_leaves(name@);
        }
        if let Some(ident) = path.path.get_ident() {
            if find_type_param(self.generics, ident.as_str()) {
                return generic_value(ident.as_str());
            }
        }
        if builtins::check_scalar(name) {
            return json::text_json(name);
        }
        if let Some(scalar) = builtins::find_pod_scalar(name) {
            return json::text_json(scalar);
        }
        if text::str_eq(name, "String") || text::str_eq(name, "string") || text::str_eq(name, "str") {
            return json::text_json("string");
        }
        if text::str_eq(name, "Pubkey") || text::str_eq(name, "Address") || text::str_eq(
            name,
            "pubkey",
        ) {
            return json::text_json("pubkey");
        }
        let is_vec = text::str_eq(name, "Vec");
        let is_option = text::str_eq(name, "Option");
        let is_box = text::str_eq(name, "Box");
        if !is_vec && !is_option && !is_box {
            return defined_value(segment.ident.as_str());
        }
        match first_type_arg(segment) {
            None => defined_value(name),
            Some(inner) => {
                let ghost doc = lowered(*inner, self.generics, self.open_lengths().len());
                let value = self.lower(inner);
                let ghost vec_doc = seq![("vec"@, doc)];
                let ghost option_doc = seq![("option"@, doc)];
                if is_vec {
                    json::object_json(vec![("vec", value)], Ghost(vec_doc))
                } else if is_option {
                    json::object_json(vec![("option", value)], Ghost(option_doc))
                } else {
                    value
                }
            },
        }
    }
}

/// The object that holds the place of the `index`-th open length.
pub(crate) fn marker_value(index: usize) -> (value: Value)
    ensures
        json::value_text(value) == json::marker_text(index as nat),
{
    let ghost doc = seq![(json::DYNAMIC_LEN_KEY@, Json::Number(index as nat))];
    proof {
        let lengths = |i: nat| json::marker_text(i);
        let entry = (json::DYNAMIC_LEN_KEY@, json::decimal(index as nat));
        json::lemma_field_texts(doc, lengths);
        assert(json::field_texts(doc, lengths) =~= seq![entry]);
        assert(json::inserted(Seq::empty(), seq![entry]) =~= seq![entry]) by {
            reveal_with_fuel(json::inserted, 3);
        }
    }
    json::object_json(vec![(json::DYNAMIC_LEN_KEY, json::number_json(index))], Ghost(doc))
}

/// The IDL form of a `PodVec<T, N>`, possibly behind references; any other
/// type has none here.
pub fn pod_vec_type_to_idl_value(ty: &Type) -> (value: Option<Value>)
    ensures
        value matches Some(v) ==> pod_vec(*ty) is Some && json::value_text(v) == json::json_text(
            pod_vec(*ty)->0,
        ),
        value is None ==> pod_vec(*ty) is None,
    decreases ty, 0nat,
{
    match &ty.shape {
        TypeShape::Group(inner) => pod_vec_type_to_idl_value(inner),
        TypeShape::Paren(inner) => pod_vec_type_to_idl_value(inner),
        TypeShape::Reference(inner) => pod_vec_type_to_idl_value(inner),
        TypeShape::Path(path) => {
            let segments = &path.path.segments;
            let n: usize = segments.len();
            if n == 0 {
                return None;
            }
            let segment = &segments[n - 1];
            if !text::str_eq(segment.ident.as_str(), "PodVec") {
                return None;
            }
            match &segment.arguments {
                PathArguments::AngleBracketed(args) => {
                    if args.len() != 2 {
                        return None;
                    }
                    match (&args[0], &args[1]) {
                        (GenericArgument::Type(element), GenericArgument::Const(max)) => {
                            let value = pod_vec_element_type_to_idl_value(element);
                            let printed = tokens::stream_to_string(&max.tokens);
                            let max_text = text::without_spaces(printed.as_str());
                            Some(pod_vec_value(value, max_text.as_str(), Ghost(pod_element(*element))))
                        },
                        _ => None,
                    }
                },
                _ => None,
            }
        },
        _ => None,
    }
}

fn pod_vec_value(element: Value, max: &str, Ghost(doc): Ghost<Json>) -> (value: Value)
    requires
        json::value_text(element) == json::json_text(doc),
    ensures
        json::value_text(value) == json::json_text(pod_vec_json(doc, max@)),
{
    let ghost type_doc = seq![("kind"@, Json::Text("type"@)), ("type"@, doc)];
    let ghost const_doc = seq![("kind"@, Json::Text("const"@)), ("value"@, Json::Text(max@))];
    let type_arg = json::object_json(
        vec![("kind", json::text_json("type")), ("type", element)],
        Ghost(type_doc),
    );
    let const_arg = json::object_json(
        vec![("kind", json::text_json("const")), ("value", json::text_json(max))],
        Ghost(const_doc),
    );
    let ghost list_doc = seq![Json::Object(type_doc), Json::Object(const_doc)];
    let generics = json::list_json(vec![type_arg, const_arg], Ghost(list_doc));
    let ghost inner_doc = seq![
        ("name"@, Json::Text("PodVec"@)),
        ("generics"@, Json::List(list_doc)),
    ];
    let inner = json::object_json(
        vec![("name", json::text_json("PodVec")), ("generics", generics)],
        Ghost(inner_doc),
    );
    let ghost doc = seq![("defined"@, Json::Object(inner_doc))];
    json::object_json(vec![("defined", inner)], Ghost(doc))
}

/// The IDL form of the element type of a `PodVec`.
pub fn pod_vec_element_type_to_idl_value(ty: &Type) -> (value: Value)
    ensures
        json::value_text(value) == json::json_text(pod_element(*ty)),
    decreases ty, 2nat,
{
    if let TypeShape::Path(path) = &ty.shape {
        let segments = &path.path.segments;
        let n: usize = segments.len();
        if n > 0 {
            let ident = segments[n - 1].ident.as_str();
            if builtins::find_pod_scalar(builtins::normalize_builtin_path(ident)).is_some() {
                return defined_value(ident);
            }
        }
    }
    let mut lowerer = TypeLowerer::default();
    lowerer.lower(ty)
}

/// The IDL form of a type outside any generic item, lengths left open being
/// markers.
pub fn rust_type_to_idl_value(ty: &Type) -> (value: Value)
    ensures
        json::value_text(value) == json::json_text(lowered(*ty, None, 0)),
{
    let mut lowerer = TypeLowerer::default();
    lowerer.lower(ty)
}

// ---------------------------------------------------------------------------
// Laws
// ---------------------------------------------------------------------------

/// References, parentheses and invisible groups do not show in the IDL.
pub proof fn law_wrappers_are_transparent(ty: Type, generics: Option<&Generics>, next: nat)
    ensures
        ty.shape matches TypeShape::Reference(inner) ==> lowered(ty, generics, next) == lowered(
            *inner,
            generics,
            next,
        ) && dynamic_lengths(ty, generics) == dynamic_lengths(*inner, generics),
        ty.shape matches TypeShape::Group(inner) ==> lowered(ty, generics, next) == lowered(
            *inner,
            generics,
            next,
        ) && dynamic_lengths(ty, generics) == dynamic_lengths(*inner, generics),
        ty.shape matches TypeShape::Paren(inner) ==> lowered(ty, generics, next) == lowered(
            *inner,
            generics,
            next,
        ) && dynamic_lengths(ty, generics) == dynamic_lengths(*inner, generics),
{
    match ty.shape {
        TypeShape::Reference(inner) => {
            assert(pod_vec(ty) == pod_vec(*inner));
            assert(lowered(ty, generics, next) == lowered(*inner, generics, next));
        },
        TypeShape::Group(inner) => {
            assert(pod_vec(ty) == pod_vec(*inner));
            assert(lowered(ty, generics, next) == lowered(*inner, generics, next));
        },
        TypeShape::Paren(inner) => {
            assert(pod_vec(ty) == pod_vec(*inner));
            assert(lowered(ty, generics, next) == lowered(*inner, generics, next));
        },
        _ => {},
    }
}

/// The path is a type parameter of the item.
pub open spec fn is_param(path: Path, generics: Option<&Generics>) -> bool {
    path.ident() matches Some(name) && has_type_param(generics, name)
}

/// Two paths to a type with the same last segment and the same normal form
/// lower alike, unless one of them is a parameter of the item: a known type may
/// be written with any of its module paths.
pub proof fn law_paths_lower_by_their_normal_form(
    a: Type,
    b: Type,
    generics: Option<&Generics>,
    next: nat,
)
    requires
        a.shape is Path,
        b.shape is Path,
        a.shape->Path_0.path.segments@.len() > 0,
        b.shape->Path_0.path.segments@.len() > 0,
        a.shape->Path_0.path.segments@.last() == b.shape->Path_0.path.segments@.last(),
        builtins::normalized(path_text(a.shape->Path_0.path.segments@)) == builtins::normalized(
            path_text(b.shape->Path_0.path.segments@),
        ),
        is_param(a.shape->Path_0.path, generics) == is_param(b.shape->Path_0.path, generics),
    ensures
        lowered(a, generics, next) == lowered(b, generics, next),
        dynamic_lengths(a, generics) == dynamic_lengths(b, generics),
{
    assert(pod_vec(a) == pod_vec(b));
}

} // verus!
