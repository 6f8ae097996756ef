//! Types, seeds, attributes and expressions as they are written in source code.

use anchor_idl::emit::{build_args_json, rust_type_to_idl};
use anchor_idl::lower::{rust_type_to_idl_value, TypeLowerer};
use anchor_idl::pda::pda_object_emission;
use anchor_idl::repr::{bytemuck_repr_from_attrs, ReprError};
use anchor_idl::seeds::{
    classify_program_seed, classify_seed, classify_seed_list, receiver_root_ident_str, SeedJson,
    SeedListJson,
};
use anchor_idl::syntax::{
    Attribute, Expr, ExprPath, ExprShape, GenericArgument, GenericParam, Generics, Lit, Meta, Path,
    PathArguments, PathSegment, Type, TypePath, TypeShape,
};
use anchor_idl::typedefs::generic_definitions;
use anchor_idl::walk::{
    expr_contains_macro, expr_references_local_binding, expr_references_runtime_seed_inputs,
};
use proc_macro2::TokenStream;
use quote::ToTokens;
use serde_json::Value;
use syn::parse::Parser;
use syn::spanned::Spanned;
use syn::visit::Visit;

// ---------------------------------------------------------------------------
// From source code
// ---------------------------------------------------------------------------

struct Collector {
    found: Vec<Expr>,
}

impl<'ast> Visit<'ast> for Collector {
    fn visit_expr(&mut self, node: &'ast syn::Expr) {
        self.found.push(expr_of(node));
    }

    fn visit_expr_path(&mut self, node: &'ast syn::ExprPath) {
        self.found.push(expr_of(&syn::Expr::Path(node.clone())));
    }

    fn visit_expr_macro(&mut self, node: &'ast syn::ExprMacro) {
        self.found.push(expr_of(&syn::Expr::Macro(node.clone())));
    }
}

fn path_of(path: &syn::Path) -> Path {
    Path {
        leading_colon: path.leading_colon.is_some(),
        segments: path
            .segments
            .iter()
            .map(|segment| PathSegment {
                ident: segment.ident.to_string(),
                arguments: match &segment.arguments {
                    syn::PathArguments::None => PathArguments::Absent,
                    syn::PathArguments::AngleBracketed(args) => PathArguments::AngleBracketed(
                        args.args
                            .iter()
                            .map(|arg| match arg {
                                syn::GenericArgument::Type(ty) => {
                                    GenericArgument::Type(type_of(ty))
                                }
                                syn::GenericArgument::Const(expr) => {
                                    GenericArgument::Const(expr_of(expr))
                                }
                                _ => GenericArgument::Other,
                            })
                            .collect(),
                    ),
                    syn::PathArguments::Parenthesized(_) => PathArguments::Parenthesized,
                },
            })
            .collect(),
    }
}

fn type_of(ty: &syn::Type) -> Type {
    let shape = match ty {
        syn::Type::Reference(inner) => TypeShape::Reference(Box::new(type_of(&inner.elem))),
        syn::Type::Group(inner) => TypeShape::Group(Box::new(type_of(&inner.elem))),
        syn::Type::Paren(inner) => TypeShape::Paren(Box::new(type_of(&inner.elem))),
        syn::Type::Slice(inner) => TypeShape::Slice(Box::new(type_of(&inner.elem))),
        syn::Type::Array(array) => {
            TypeShape::Array(Box::new(type_of(&array.elem)), Box::new(expr_of(&array.len)))
        }
        syn::Type::Path(path) => TypeShape::Path(TypePath {
            qself: path.qself.is_some(),
            path: path_of(&path.path),
        }),
        _ => TypeShape::Other,
    };
    Type {
        shape,
        tokens: ty.to_token_stream(),
    }
}

fn expr_of(expr: &syn::Expr) -> Expr {
    let mut inner = Collector { found: Vec::new() };
    let shape = match expr {
        syn::Expr::Reference(node) => ExprShape::Reference(Box::new(expr_of(&node.expr))),
        syn::Expr::Paren(node) => ExprShape::Paren(Box::new(expr_of(&node.expr))),
        syn::Expr::Group(node) => ExprShape::Group(Box::new(expr_of(&node.expr))),
        syn::Expr::Lit(node) => ExprShape::Lit(match &node.lit {
            syn::Lit::Str(s) => Lit::Str(s.value()),
            syn::Lit::ByteStr(bytes) => Lit::ByteStr(bytes.value()),
            syn::Lit::Byte(byte) => Lit::Byte(byte.value()),
            syn::Lit::Int(int) => Lit::Int(int.base10_digits().to_owned()),
            _ => Lit::Other,
        }),
        syn::Expr::Array(node) => ExprShape::Array(node.elems.iter().map(expr_of).collect()),
        syn::Expr::Path(node) => {
            syn::visit::visit_expr_path(&mut inner, node);
            ExprShape::Path(ExprPath {
                qself: node.qself.is_some(),
                path: path_of(&node.path),
            })
        }
        syn::Expr::MethodCall(node) => {
            if let Some(args) = &node.turbofish {
                inner.visit_angle_bracketed_generic_arguments(args);
            }
            ExprShape::MethodCall(
                Box::new(expr_of(&node.receiver)),
                node.method.to_string(),
                node.args.iter().map(expr_of).collect(),
            )
        }
        syn::Expr::Macro(_) => ExprShape::Macro,
        other => {
            syn::visit::visit_expr(&mut inner, other);
            ExprShape::Other
        }
    };
    Expr {
        shape,
        nested: inner.found,
        tokens: expr.to_token_stream(),
    }
}

fn expr(source: &str) -> Expr {
    expr_of(&syn::parse_str(source).expect("an expression"))
}

fn ty(source: &str) -> Type {
    type_of(&syn::parse_str(source).expect("a type"))
}

fn generics(source: &str) -> Generics {
    let parsed: syn::Generics = syn::parse_str(source).expect("generic parameters");
    Generics {
        params: parsed
            .params
            .iter()
            .map(|param| match param {
                syn::GenericParam::Type(param) => GenericParam::Type(param.ident.to_string()),
                syn::GenericParam::Const(param) => {
                    GenericParam::Const(param.ident.to_string(), param.ty.to_token_stream())
                }
                syn::GenericParam::Lifetime(_) => GenericParam::Lifetime,
            })
            .collect(),
    }
}

fn attrs(source: &str) -> Vec<Attribute> {
    let parser = if source.starts_with("#!") {
        syn::Attribute::parse_inner
    } else {
        syn::Attribute::parse_outer
    };
    let parsed = parser.parse_str(source).expect("attributes");
    parsed
        .iter()
        .map(|attr| Attribute {
            inner: matches!(attr.style, syn::AttrStyle::Inner(_)),
            meta: match &attr.meta {
                syn::Meta::Path(path) => Meta::Path(path_of(path), path.span()),
                syn::Meta::List(list) => Meta::List(
                    path_of(&list.path),
                    list.tokens.clone(),
                    list.delimiter.span().close(),
                ),
                syn::Meta::NameValue(pair) => Meta::NameValue(
                    path_of(&pair.path),
                    expr_of(&pair.value),
                    pair.eq_token.span,
                ),
            },
        })
        .collect()
}

fn json(source: &str) -> Value {
    serde_json::from_str(source).expect("a JSON document")
}

fn squashed(text: &str) -> String {
    text.split_whitespace().collect()
}

fn code(tokens: &TokenStream) -> String {
    squashed(&tokens.to_string())
}

fn names(list: &[&str]) -> Vec<String> {
    list.iter().map(|s| (*s).to_string()).collect()
}

/// Pulls the JSON out of a `Static` seed.
fn expect_static(seed: SeedJson) -> String {
    match seed {
        SeedJson::Static(s) => s,
        SeedJson::Runtime(ts) => panic!("expected Static seed, got Runtime: {}", ts),
        SeedJson::Unsupported => panic!("expected Static seed, got Unsupported"),
    }
}

fn expect_runtime(seed: SeedJson) -> String {
    match seed {
        SeedJson::Static(s) => panic!("expected Runtime seed, got Static: {}", s),
        SeedJson::Runtime(ts) => ts.to_string(),
        SeedJson::Unsupported => panic!("expected Runtime seed, got Unsupported"),
    }
}

fn classify(source: &str, fields: &[&str], args: &[&str]) -> SeedJson {
    classify_seed(&expr(source), &names(fields), &names(args))
}

fn type_str_to_idl_value(s: &str) -> Value {
    rust_type_to_idl_value(&ty(s))
}

// ---------------------------------------------------------------------------
// Seeds
// ---------------------------------------------------------------------------

#[test]
fn byte_string_literal_is_static_const() {
    let s = expect_static(classify("b\"counter\"", &[], &[]));
    assert_eq!(
        s,
        r#"{"kind":"const","value":[99,111,117,110,116,101,114]}"#
    );
}

#[test]
fn string_literal_is_static_const_with_utf8_bytes() {
    let s = expect_static(classify("\"ab\"", &[], &[]));
    assert_eq!(s, r#"{"kind":"const","value":[97,98]}"#);
}

#[test]
fn string_literal_beyond_ascii_is_encoded() {
    let s = expect_static(classify("\"é\"", &[], &[]));
    assert_eq!(s, r#"{"kind":"const","value":[195,169]}"#);
}

#[test]
fn byte_literal_is_static_one_byte_const() {
    let s = expect_static(classify("b'A'", &[], &[]));
    assert_eq!(s, r#"{"kind":"const","value":[65]}"#);
}

#[test]
fn byte_array_literal_is_static_const() {
    let s = expect_static(classify("[1u8, 2, 3]", &[], &[]));
    assert_eq!(s, r#"{"kind":"const","value":[1,2,3]}"#);
}

#[test]
fn largest_byte_in_an_array_is_static_const() {
    assert_eq!(
        expect_static(classify("[0xff, 0]", &[], &[])),
        r#"{"kind":"const","value":[255,0]}"#
    );
    assert_eq!(
        expect_static(classify("[]", &[], &[])),
        r#"{"kind":"const","value":[]}"#
    );
}

#[test]
fn byte_array_with_non_u8_is_evaluated_later() {
    let ts = expect_runtime(classify("[999, 2]", &[], &[]));
    assert_eq!(
        squashed(&ts),
        "anchor_lang::idl_build::__idl_const_seed_json([999,2])"
    );
    let ts = expect_runtime(classify("[256]", &[], &[]));
    assert!(ts.contains("__idl_const_seed_json"));
}

#[test]
fn ampersand_wrapper_is_peeled() {
    // Common shape, `&b"foo"`: the same as the bare literal.
    let s = expect_static(classify("&b\"x\"", &[], &[]));
    assert_eq!(s, r#"{"kind":"const","value":[120]}"#);
    assert_eq!(expect_static(classify("&&b\"x\"", &[], &[])), s);
}

#[test]
fn parentheses_around_a_literal_are_not_peeled() {
    let ts = expect_runtime(classify("(b\"x\")", &[], &[]));
    assert!(ts.contains("__idl_const_seed_json"));
}

#[test]
fn bare_field_ident_classifies_as_account() {
    let s = expect_static(classify("user", &["user"], &[]));
    assert_eq!(s, r#"{"kind":"account","path":"user"}"#);
}

#[test]
fn bare_arg_ident_classifies_as_arg() {
    let s = expect_static(classify("nonce", &[], &["nonce"]));
    assert_eq!(s, r#"{"kind":"arg","path":"nonce"}"#);
}

#[test]
fn field_ref_takes_precedence_over_arg_ref() {
    // The same identifier in both lists: the field wins.
    let s = expect_static(classify("name", &["name"], &["name"]));
    assert_eq!(s, r#"{"kind":"account","path":"name"}"#);
}

#[test]
fn method_chain_resolves_account_root() {
    // `user.address().as_ref()`: the canonical shape of a key seed.
    let s = expect_static(classify("user.address().as_ref()", &["user"], &[]));
    assert_eq!(s, r#"{"kind":"account","path":"user"}"#);
    assert_eq!(
        expect_static(classify("(&user).key().as_ref()", &["user"], &[])),
        s
    );
}

#[test]
fn account_as_ref_resolves_account_root() {
    let s = expect_static(classify("user.as_ref()", &["user"], &[]));
    assert_eq!(s, r#"{"kind":"account","path":"user"}"#);
}

#[test]
fn method_chain_resolves_arg_root() {
    let s = expect_static(classify("nonce.to_le_bytes()", &[], &["nonce"]));
    assert_eq!(s, r#"{"kind":"arg","path":"nonce"}"#);
}

#[test]
fn little_endian_bytes_of_a_field_are_unsupported() {
    assert!(matches!(
        classify("user.to_le_bytes()", &["user"], &[]),
        SeedJson::Unsupported
    ));
}

#[test]
fn account_field_method_chain_is_unsupported() {
    assert!(matches!(
        classify("manager.next_oracle_id.to_le_bytes()", &["manager"], &[]),
        SeedJson::Unsupported
    ));
}

#[test]
fn nested_account_address_chain_is_unsupported() {
    assert!(matches!(
        classify("manager.account().address().as_ref()", &["manager"], &[]),
        SeedJson::Unsupported
    ));
}

#[test]
fn wrapped_account_ref_is_unsupported() {
    assert!(matches!(
        classify(
            "u64::from(manager.next_oracle_id).to_le_bytes()",
            &["manager"],
            &[]
        ),
        SeedJson::Unsupported
    ));
}

#[test]
fn wrapped_arg_ref_is_unsupported() {
    assert!(matches!(
        classify(
            "u64::from(next_oracle_id).to_le_bytes()",
            &[],
            &["next_oracle_id"]
        ),
        SeedJson::Unsupported
    ));
}

#[test]
fn string_literal_as_bytes_method_is_static_const() {
    let s = expect_static(classify("\"hi\".as_bytes()", &[], &[]));
    assert_eq!(s, r#"{"kind":"const","value":[104,105]}"#);
}

#[test]
fn const_path_is_evaluated_later() {
    let ts = expect_runtime(classify("MY_PREFIX", &[], &[]));
    assert_eq!(
        squashed(&ts),
        "anchor_lang::idl_build::__idl_const_seed_json(MY_PREFIX)"
    );
}

#[test]
fn marker_id_call_is_evaluated_later() {
    let ts = expect_runtime(classify("System::id()", &[], &[]));
    assert_eq!(
        squashed(&ts),
        "anchor_lang::idl_build::__idl_const_seed_json(System::id())"
    );
}

#[test]
fn unknown_marker_id_call_is_evaluated_later() {
    let ts = expect_runtime(classify("MyCustomProgram::id()", &[], &[]));
    assert!(ts.contains("MyCustomProgram :: id"));
}

#[test]
fn program_marker_id_call_flows_through_runtime_const_seed() {
    let fields = Vec::new();
    let args = Vec::new();
    let ts = expect_runtime(
        classify_program_seed(&expr("System::id()"), &fields, &args).expect("a seed"),
    );
    assert!(ts.contains("__idl_const_seed_json"), "got: {ts}");
    assert!(ts.contains("System :: id"), "got: {ts}");
}

#[test]
fn local_field_program_seed_is_left_out() {
    let fields = names(&["config"]);
    assert!(classify_program_seed(&expr("config.program_id"), &fields, &[]).is_none());
}

#[test]
fn macro_wrapped_program_seed_is_evaluated_later() {
    let fields = names(&["config"]);
    let seed = classify_program_seed(&expr("wrap!(config.program_id)"), &fields, &[]);
    let ts = expect_runtime(seed.expect("a seed"));
    assert!(ts.contains("wrap !"), "got: {ts}");
}

#[test]
fn seed_lists_are_classified_seed_by_seed() {
    let fields = names(&["user"]);
    match classify_seed_list(&expr("[b\"a\", user, PREFIX]"), &fields, &[]) {
        Some(SeedListJson::Listed(seeds)) => {
            assert_eq!(seeds.len(), 3);
            assert_eq!(
                expect_static(seeds[0].clone()),
                r#"{"kind":"const","value":[97]}"#
            );
            assert_eq!(
                expect_static(seeds[1].clone()),
                r#"{"kind":"account","path":"user"}"#
            );
            assert!(expect_runtime(seeds[2].clone()).contains("PREFIX"));
        }
        _ => panic!("expected a list"),
    }
}

#[test]
fn seed_list_with_an_unsupported_seed_is_left_out() {
    let fields = names(&["user"]);
    assert!(classify_seed_list(&expr("[b\"a\", user.data]"), &fields, &[]).is_none());
    assert!(classify_seed_list(&expr("seeds_of(user)"), &fields, &[]).is_none());
}

#[test]
fn seed_list_expression_is_evaluated_as_a_whole() {
    match classify_seed_list(&expr("SEEDS"), &[], &[]) {
        Some(SeedListJson::Runtime(ts)) => assert_eq!(
            code(&ts),
            "anchor_lang::idl_build::__idl_const_seeds_json(SEEDS)"
        ),
        _ => panic!("expected an expression"),
    }
}

#[test]
fn roots_of_simple_seeds_are_found() {
    let root = |source: &str| receiver_root_ident_str(&expr(source));
    assert_eq!(root("user"), Some("user".to_string()));
    assert_eq!(root("user.key()"), Some("user".to_string()));
    assert_eq!(root("user.address().as_ref()"), Some("user".to_string()));
    assert_eq!(root("&nonce.to_le_bytes()"), Some("nonce".to_string()));
    assert_eq!(root("account.data.to_le_bytes()"), None);
    assert_eq!(root("user.key(1)"), None);
    assert_eq!(root("module::user"), None);
}

#[test]
fn local_binding_detector_sees_sibling_field_access() {
    let fields = vec!["config".to_string()];
    let args = Vec::new();
    assert!(expr_references_local_binding(
        &expr("config.program_id"),
        &fields,
        &args,
    ));
    assert!(!expr_references_local_binding(
        &expr("System::id()"),
        &fields,
        &args,
    ));
}

#[test]
fn detectors_differ_on_qualified_and_parameterized_names() {
    let fields = names(&["config"]);
    let qualified = expr("config::<>");
    assert!(expr_references_local_binding(&qualified, &fields, &[]));
    assert!(!expr_references_runtime_seed_inputs(&qualified, &fields, &[]));
    let plain = expr("{ let x = 1; f(x, config) }");
    assert!(expr_references_local_binding(&plain, &fields, &[]));
    assert!(expr_references_runtime_seed_inputs(&plain, &[], &fields));
}

#[test]
fn detectors_agree_on_plain_names() {
    let fields = names(&["config"]);
    let args = names(&["nonce"]);
    for source in [
        "config",
        "f(&config.x)",
        "[1, nonce]",
        "other",
        "module::config",
        "a.b(nonce)",
        "config::<u8>",
        "wrap!(config)",
    ] {
        let e = expr(source);
        assert_eq!(
            expr_references_local_binding(&e, &fields, &args),
            expr_references_runtime_seed_inputs(&e, &fields, &args)
        );
    }
}

#[test]
fn detectors_agree_on_names_that_are_not_listed() {
    let fields = names(&["config"]);
    for source in ["other::<>", "f(config, other::<>)", "<Self>::other"] {
        let e = expr(source);
        assert_eq!(
            expr_references_local_binding(&e, &fields, &[]),
            expr_references_runtime_seed_inputs(&e, &fields, &[])
        );
    }
}

#[test]
fn detectors_do_not_tell_fields_from_args() {
    let fields = names(&["config", "both"]);
    let args = names(&["nonce", "both"]);
    for source in ["config", "nonce", "f(both)", "other", "a.b(&nonce)", "config::<>"] {
        let e = expr(source);
        assert_eq!(
            expr_references_local_binding(&e, &fields, &args),
            expr_references_local_binding(&e, &args, &fields)
        );
        assert_eq!(
            expr_references_runtime_seed_inputs(&e, &fields, &args),
            expr_references_runtime_seed_inputs(&e, &args, &fields)
        );
    }
}

#[test]
fn macro_detector_sees_expr_macro() {
    assert!(expr_contains_macro(&expr("wrap!(config.program_id)")));
    assert!(!expr_contains_macro(&expr("System::id()")));
}

#[test]
fn macro_detector_looks_inside() {
    assert!(expr_contains_macro(&expr("[1, (f(&wrap!(2)))]")));
    assert!(expr_contains_macro(&expr("a.b(c, wrap!())")));
    assert!(expr_contains_macro(&expr("wrap!().b()")));
    assert!(expr_contains_macro(&expr("1 + wrap!()")));
    assert!(!expr_contains_macro(&expr("a.b(c)")));
}

// ---------------------------------------------------------------------------
// PDAs
// ---------------------------------------------------------------------------

#[test]
fn pda_object_emission_assembles_seeds_array_in_order() {
    let seeds = SeedListJson::Listed(vec![
        SeedJson::Static(r#"{"kind":"const","value":[1]}"#.to_string()),
        SeedJson::Static(r#"{"kind":"account","path":"user"}"#.to_string()),
    ]);
    let ts = pda_object_emission(&seeds, None).to_string();
    // Both seed bodies are spliced in source order with the comma
    // separator between them.
    assert!(
        ts.contains(r#"{\"kind\":\"const\",\"value\":[1]}"#),
        "first seed missing: {ts}"
    );
    assert!(
        ts.contains(r#"{\"kind\":\"account\",\"path\":\"user\"}"#),
        "second seed missing: {ts}"
    );
    assert!(
        !ts.contains(r#""program""#),
        "no program override expected: {ts}"
    );
}

#[test]
fn pda_object_emission_includes_program_when_set() {
    let seeds = SeedListJson::Listed(vec![SeedJson::Static(
        r#"{"kind":"const","value":[1]}"#.to_string(),
    )]);
    let prog = SeedJson::Static(r#"{"kind":"const","value":[2]}"#.to_string());
    let ts = pda_object_emission(&seeds, Some(&prog)).to_string();
    // The program override gets its own runtime push under the
    // "program" key.
    assert!(ts.contains(r#",\"program\":"#), "missing program key: {ts}");
}

#[test]
fn pda_object_emission_is_exact() {
    let runtime: TokenStream = "seed_of(X)".parse().expect("tokens");
    let seeds = SeedListJson::Listed(vec![
        SeedJson::Static("{}".to_string()),
        SeedJson::Runtime(runtime),
    ]);
    let program = SeedJson::Static("[]".to_string());
    let expected = r#"
        {
            let mut __pda = anchor_lang::__alloc::string::String::from("{\"seeds\":");
            __pda.push_str(&{
                {
                    let mut __seeds = anchor_lang::__alloc::string::String::from("[");
                    __seeds.push_str("");
                    __seeds.push_str(&{ anchor_lang::__alloc::string::String::from("{}") });
                    __seeds.push_str(",");
                    __seeds.push_str(&{ seed_of(X) });
                    __seeds.push(']');
                    __seeds
                }
            });
            __pda.push_str(",\"program\":");
            __pda.push_str(&{ anchor_lang::__alloc::string::String::from("[]") });
            __pda.push('}');
            __pda
        }
    "#;
    assert_eq!(
        code(&pda_object_emission(&seeds, Some(&program))),
        squashed(expected)
    );
}

#[test]
fn pda_object_emission_of_a_whole_expression_is_exact() {
    let ts: TokenStream = "all_seeds()".parse().expect("tokens");
    let expected = r#"
        {
            let mut __pda = anchor_lang::__alloc::string::String::from("{\"seeds\":");
            __pda.push_str(&{ { all_seeds() } });
            __pda.push('}');
            __pda
        }
    "#;
    assert_eq!(
        code(&pda_object_emission(&SeedListJson::Runtime(ts), None)),
        squashed(expected)
    );
}

#[test]
fn seeds_become_string_expressions() {
    let known = SeedJson::Static("{\"a\":1}".to_string());
    assert_eq!(
        code(&known.clone().into_string_expr()),
        r#"anchor_lang::__alloc::string::String::from("{\"a\":1}")"#
    );
    let later = SeedJson::Runtime("f(1)".parse().expect("tokens"));
    assert_eq!(code(&later.into_string_expr()), "f(1)");
}

// ---------------------------------------------------------------------------
// Types
// ---------------------------------------------------------------------------

#[test]
fn qualified_builtin_paths_lower_like_builtins() {
    let vec_ty = ty("alloc::vec::Vec<alloc::string::String>");
    assert_eq!(rust_type_to_idl_value(&vec_ty), json(r#"{ "vec": "string" }"#));

    let address_ty = ty("anchor_lang::prelude::Address");
    assert_eq!(rust_type_to_idl_value(&address_ty), json("\"pubkey\""));

    let user_ty = ty("crate::models::Inner");
    assert_eq!(
        rust_type_to_idl_value(&user_ty),
        json(r#"{ "defined": { "name": "Inner" } }"#)
    );

    let primitive_named_user_ty = ty("models::u8");
    assert_eq!(
        rust_type_to_idl_value(&primitive_named_user_ty),
        json(r#"{ "defined": { "name": "u8" } }"#)
    );
}

#[test]
fn leading_colons_lower_like_builtins() {
    assert_eq!(type_str_to_idl_value("::std::option::Option<::core::primitive::u64>"), json(r#"{ "option": "u64" }"#));
}

#[test]
fn pod_vec_references_preserve_type_and_const_generics() {
    assert_eq!(
        rust_type_to_idl_value(&ty("PodVec<PodU64, 4>")),
        json(
            r#"{
                "defined": {
                    "name": "PodVec",
                    "generics": [
                        { "kind": "type", "type": { "defined": { "name": "PodU64" } } },
                        { "kind": "const", "value": "4" }
                    ]
                }
            }"#
        )
    );
}

#[test]
fn pod_vec_element_and_length_are_lowered() {
    assert_eq!(
        rust_type_to_idl_value(&ty("&pod::PodVec<Vec<PodBool>, { A + 1 }>")),
        json(
            r#"{
                "defined": {
                    "name": "PodVec",
                    "generics": [
                        { "kind": "type", "type": { "vec": "bool" } },
                        { "kind": "const", "value": "{A+1}" }
                    ]
                }
            }"#
        )
    );
    assert_eq!(
        rust_type_to_idl_value(&ty("PodVec<u8>")),
        json(r#"{ "defined": { "name": "PodVec" } }"#)
    );
}

#[test]
fn array_lengths_are_lowered_in_their_defining_context() {
    let params = generics("<const N: usize>");
    let mut lowerer = TypeLowerer::with_generics(&params);
    let generic_len = ty("[u8; N]");
    assert_eq!(
        lowerer.lower(&generic_len),
        json(r#"{ "array": ["u8", { "generic": "N" }] }"#)
    );
    assert_eq!(
        generic_definitions(&params),
        vec![json(r#"{ "kind": "const", "name": "N", "type": "usize" }"#)]
    );

    let mut lowerer = TypeLowerer::default();
    let path_len = ty("[u8; limits::ITEMS]");
    let value = lowerer.lower(&path_len);
    let generated = lowerer.finish(value).to_string();
    assert!(generated.contains("String :: new"));
    assert!(generated.contains("Box :: leak"));
    assert!(generated.contains("limits :: ITEMS"));
    assert!(!generated.contains("generic"));
}

#[test]
fn float_primitives_map_to_scalar_idl_types() {
    assert_eq!(type_str_to_idl_value("f32"), Value::String("f32".into()));
    assert_eq!(type_str_to_idl_value("f64"), Value::String("f64".into()));
}

#[test]
fn float_primitives_do_not_fall_back_to_defined_types() {
    assert_ne!(
        type_str_to_idl_value("f32"),
        json(r#"{ "defined": { "name": "f32" } }"#)
    );
    assert_ne!(
        type_str_to_idl_value("f64"),
        json(r#"{ "defined": { "name": "f64" } }"#)
    );
}

#[test]
fn known_types_lower_to_their_idl_names() {
    for name in [
        "u8", "u16", "u32", "u64", "u128", "i8", "i16", "i32", "i64", "i128", "bool",
    ] {
        assert_eq!(type_str_to_idl_value(name), Value::String(name.into()));
    }
    for (name, scalar) in [
        ("PodU16", "u16"),
        ("PodU32", "u32"),
        ("PodU64", "u64"),
        ("PodU128", "u128"),
        ("PodI16", "i16"),
        ("PodI32", "i32"),
        ("PodI64", "i64"),
        ("PodI128", "i128"),
        ("PodBool", "bool"),
    ] {
        assert_eq!(type_str_to_idl_value(name), Value::String(scalar.into()));
    }
    assert_eq!(type_str_to_idl_value("&'a str"), json("\"string\""));
    assert_eq!(type_str_to_idl_value("Pubkey"), json("\"pubkey\""));
    assert_eq!(type_str_to_idl_value("&[u8]"), json("\"bytes\""));
    assert_eq!(type_str_to_idl_value("[u16]"), json(r#"{ "vec": "u16" }"#));
    assert_eq!(type_str_to_idl_value("Box<u8>"), json("\"u8\""));
    assert_eq!(
        type_str_to_idl_value("Vec"),
        json(r#"{ "defined": { "name": "Vec" } }"#)
    );
    assert_eq!(
        type_str_to_idl_value("(u8, u16)"),
        json(r#"{ "defined": { "name": "(u8,u16)" } }"#)
    );
    assert_eq!(
        type_str_to_idl_value("[[u8; 0x10]; (2)]"),
        json(r#"{ "array": [{ "array": ["u8", 16] }, 2] }"#)
    );
}

#[test]
fn type_parameters_stay_generic() {
    let params = generics("<'a, T, const N: usize>");
    let field = ty("Vec<T>");
    let mut lowerer = TypeLowerer::with_generics(&params);
    assert_eq!(
        lowerer.lower(&field),
        json(r#"{ "vec": { "generic": "T" } }"#)
    );
    assert_eq!(
        generic_definitions(&params),
        vec![
            json(r#"{ "kind": "type", "name": "T" }"#),
            json(r#"{ "kind": "const", "name": "N", "type": "usize" }"#)
        ]
    );
}

#[test]
fn known_type_becomes_a_literal() {
    assert_eq!(
        rust_type_to_idl(&ty("Option<[u8; 4]>")).to_string(),
        r#""{\"option\":{\"array\":[\"u8\",4]}}""#
    );
}

#[test]
fn open_lengths_are_filled_in_order() {
    let expected = r#"
        {
            let mut __s = anchor_lang::__alloc::string::String::new();
            __s.push_str("{\"array\":[{\"array\":[\"u8\",");
            __s.push_str(
                &anchor_lang::__alloc::string::ToString::to_string(&((A) as usize))
            );
            __s.push_str("]},");
            __s.push_str(
                &anchor_lang::__alloc::string::ToString::to_string(&((B + 1) as usize))
            );
            __s.push_str("]}");
            anchor_lang::__alloc::boxed::Box::leak(__s.into_boxed_str()) as &'static str
        }
    "#;
    assert_eq!(
        code(&rust_type_to_idl(&ty("[[u8; A]; (B + 1)]"))),
        squashed(expected)
    );
}

#[test]
fn lengths_inside_a_pod_vec_are_not_filled_in() {
    assert_eq!(
        rust_type_to_idl(&ty("PodVec<[u8; N], 4>")).to_string(),
        [
            r#""{\"defined\":{\"generics\":[{\"kind\":\"type\",\"type\":{\"array\":[\"u8\","#,
            r#"{\"__anchor_private_const_len\":0}]}},{\"kind\":\"const\",\"value\":\"4\"}],"#,
            r#"\"name\":\"PodVec\"}}""#,
        ]
        .concat()
    );
}

#[test]
fn args_are_listed_with_their_types() {
    let amount = ty("u64");
    let to = ty("Address");
    assert_eq!(
        build_args_json(&[("amount", &amount), ("to", &to)]).to_string(),
        r#""[{\"name\":\"amount\",\"type\":\"u64\"},{\"name\":\"to\",\"type\":\"pubkey\"}]""#
    );
    assert_eq!(build_args_json(&[]).to_string(), "\"[]\"");
}

#[test]
fn open_lengths_of_args_are_numbered_through() {
    let a = ty("[u8; M]");
    let b = ty("[u8; N]");
    let generated = code(&build_args_json(&[("a", &a), ("b", &b)]));
    let m = generated.find("((M)asusize)").expect("first length");
    let n = generated.find("((N)asusize)").expect("second length");
    assert!(m < n);
    assert!(!generated.contains("__anchor_private_const_len"));
}

// ---------------------------------------------------------------------------
// Representations
// ---------------------------------------------------------------------------

#[test]
fn packed_one_repr_modifier_sets_packed_flag() {
    let attrs = attrs("#[repr(C, packed(1))]");
    let repr = match bytemuck_repr_from_attrs(&attrs) {
        Ok(repr) => repr,
        Err(_) => panic!("packed(1) should parse"),
    };
    assert!(repr.packed);
    assert_eq!(repr.align, None);
}

#[test]
fn packed_greater_than_one_repr_modifier_is_rejected() {
    let attrs = attrs("#[repr(C, packed(2))]");
    let err = match bytemuck_repr_from_attrs(&attrs) {
        Ok(_) => panic!("packed(2) should be rejected"),
        Err(err) => err,
    };
    let message = err.into_message();
    assert!(message.contains("Anchor IDL only supports"));
    assert!(message.contains("lossy IDL layout"));
}

#[test]
fn modifiers_of_all_repr_attributes_count() {
    let attrs = attrs("#[derive(Clone)] #[repr(C)] #[repr(align(16), packed)] #[doc = \"x\"]");
    let repr = match bytemuck_repr_from_attrs(&attrs) {
        Ok(repr) => repr,
        Err(_) => panic!("the attributes should parse"),
    };
    assert!(repr.packed);
    assert_eq!(repr.align, Some(16));
}

#[test]
fn other_items_in_repr_are_ignored() {
    let attrs = attrs("#[repr(C, u8, packed = 3, align, other(x))]");
    match bytemuck_repr_from_attrs(&attrs) {
        Ok(repr) => {
            assert!(!repr.packed);
            assert_eq!(repr.align, None);
        }
        Err(_) => panic!("the attribute should parse"),
    }
}

#[test]
fn malformed_repr_attributes_are_rejected() {
    let error = |source: &str| match bytemuck_repr_from_attrs(&attrs(source)) {
        Ok(_) => panic!("{} should be rejected", source),
        Err(err) => err,
    };
    assert!(matches!(
        error("#[repr]"),
        ReprError::MissingArguments(false, _)
    ));
    assert!(matches!(
        error("#[repr = \"C\"]"),
        ReprError::MissingParentheses(false, _)
    ));
    assert!(matches!(error("#[repr(C C)]"), ReprError::Syntax(_)));
    assert!(matches!(error("#[repr(packed(x))]"), ReprError::Syntax(_)));
    assert!(matches!(error("#[repr(align(x))]"), ReprError::Syntax(_)));
    assert!(matches!(
        error("#[repr(align(99999999999999999999999))]"),
        ReprError::NumberTooLarge(_)
    ));
    assert!(matches!(
        error("#[repr(packed(-1))]"),
        ReprError::InvalidDigit(_)
    ));
}

#[test]
fn errors_say_what_is_wrong() {
    let message = |source: &str| match bytemuck_repr_from_attrs(&attrs(source)) {
        Ok(_) => panic!("{} should be rejected", source),
        Err(err) => err.into_message(),
    };
    assert_eq!(
        message("#[repr]"),
        "expected attribute arguments in parentheses: #[repr(...)]"
    );
    assert_eq!(
        message("#![repr]"),
        "expected attribute arguments in parentheses: #![repr(...)]"
    );
    assert_eq!(
        message("#[repr = 1]"),
        "expected parentheses: #[repr(...)]"
    );
    assert_eq!(
        message("#![repr = 1]"),
        "expected parentheses: #![repr(...)]"
    );
    assert_eq!(message("#[repr(align(x))]"), "expected integer literal");
    assert_eq!(
        message("#[repr(align())]"),
        "unexpected end of input, expected integer literal"
    );
    assert_eq!(message("#[repr(C C)]"), "expected `,`");
    assert_eq!(
        message("#[repr(align(99999999999999999999999))]"),
        "number too large to fit in target type"
    );
    assert_eq!(
        message("#[repr(align(-8))]"),
        "invalid digit found in string"
    );
}

/// Every message is that which the parser itself gives for the attribute.
#[test]
fn messages_are_those_of_the_parser() {
    for source in [
        "#[repr]",
        "#![repr]",
        "#[repr = 1]",
        "#![repr = 1]",
        "#[repr(C C)]",
        "#[repr(1)]",
        "#[repr(C, fn)]",
        "#[repr(align =)]",
    ] {
        let parser = if source.starts_with("#!") {
            syn::Attribute::parse_inner
        } else {
            syn::Attribute::parse_outer
        };
        let Ok(parsed) = parser.parse_str(source) else {
            panic!("{} should parse as an attribute", source);
        };
        let items = syn::punctuated::Punctuated::<syn::Meta, syn::token::Comma>::parse_terminated;
        let expected = match parsed[0].parse_args_with(items) {
            Ok(_) => panic!("{} should be rejected", source),
            Err(err) => err.to_string(),
        };
        match bytemuck_repr_from_attrs(&attrs(source)) {
            Ok(_) => panic!("{} should be rejected", source),
            Err(err) => assert_eq!(err.into_error().to_string(), expected),
        }
    }
}
