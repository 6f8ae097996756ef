//! Documentation, discriminators, type definitions and account lists.

use anchor_idl::accounts::{build_accounts_emission, AccountsJsonField};
use anchor_idl::builtins::normalize_builtin_path;
use anchor_idl::discriminators::{build_account_entry_string, disc_json};
use anchor_idl::docs::{docs_to_json_array, extract_doc_lines};
use anchor_idl::lower::TypeLowerer;
use anchor_idl::repr::{apply_modifier, apply_modifiers, ReprArg, ReprError, ReprModifier};
use anchor_idl::syntax::{
    Attribute, Expr, ExprPath, ExprShape, Field, Fields, GenericParam, Generics, Lit, Meta, Path,
    PathArguments, PathSegment, Type, TypePath, TypeShape, Variant,
};
use anchor_idl::text::{parse_number, split_once, without_spaces};
use anchor_idl::typedefs::{
    build_enum_type_def_emission, build_struct_type_def_emission, named_field_value,
    type_def_header_parts, BytemuckRepr, TypeKind,
};
use proc_macro2::{Span, TokenStream};
use serde_json::Value;

// ---------------------------------------------------------------------------
// Building syntax
// ---------------------------------------------------------------------------

fn tokens(source: &str) -> TokenStream {
    source.parse().expect("tokens")
}

fn name_path(name: &str) -> Path {
    Path {
        leading_colon: false,
        segments: vec![PathSegment {
            ident: name.to_string(),
            arguments: PathArguments::Absent,
        }],
    }
}

fn named_type(name: &str) -> Type {
    Type {
        shape: TypeShape::Path(TypePath {
            qself: false,
            path: name_path(name),
        }),
        tokens: tokens(name),
    }
}

fn name_expr(name: &str) -> Expr {
    Expr {
        shape: ExprShape::Path(ExprPath {
            qself: false,
            path: name_path(name),
        }),
        nested: Vec::new(),
        tokens: tokens(name),
    }
}

fn array_type(element: &str, len: &str) -> Type {
    Type {
        shape: TypeShape::Array(Box::new(named_type(element)), Box::new(name_expr(len))),
        tokens: tokens("array"),
    }
}

fn doc_attr(name: &str, line: &str) -> Attribute {
    let value = Expr {
        shape: ExprShape::Lit(Lit::Str(line.to_string())),
        nested: Vec::new(),
        tokens: TokenStream::new(),
    };
    Attribute {
        inner: false,
        meta: Meta::NameValue(name_path(name), value, Span::call_site()),
    }
}

fn field(name: Option<&str>, ty: Type) -> Field {
    Field {
        ident: name.map(|s| s.to_string()),
        ty,
        attrs: Vec::new(),
        cfg_attrs: Vec::new(),
    }
}

fn no_generics() -> Generics {
    Generics { params: Vec::new() }
}

fn lines(list: &[&str]) -> Vec<String> {
    list.iter().map(|s| (*s).to_string()).collect()
}

fn squashed(text: &str) -> String {
    text.split_whitespace().collect()
}

fn code(tokens: &TokenStream) -> String {
    squashed(&tokens.to_string())
}

fn json(source: &str) -> Value {
    serde_json::from_str(source).expect("a JSON document")
}

/// The text of the string literals in the generated code, in order.
fn literals(tokens: TokenStream) -> Vec<String> {
    let mut found = Vec::new();
    for tree in tokens {
        match tree {
            proc_macro2::TokenTree::Group(group) => found.extend(literals(group.stream())),
            proc_macro2::TokenTree::Literal(literal) => {
                let parsed = syn::parse_str::<syn::LitStr>(&literal.to_string());
                if let Ok(s) = parsed {
                    found.push(s.value());
                }
            }
            _ => {}
        }
    }
    found
}

// ---------------------------------------------------------------------------
// Documentation and discriminators
// ---------------------------------------------------------------------------

#[test]
fn doc_lines_lose_one_leading_blank() {
    let attrs = vec![
        doc_attr("doc", " first"),
        doc_attr("other", " not a line"),
        doc_attr("doc", "second"),
        doc_attr("doc", "  third"),
        doc_attr("doc", ""),
        Attribute {
            inner: false,
            meta: Meta::List(name_path("doc"), tokens("hidden"), Span::call_site()),
        },
        Attribute {
            inner: false,
            meta: Meta::NameValue(name_path("doc"), name_expr("CONSTANT"), Span::call_site()),
        },
    ];
    assert_eq!(
        extract_doc_lines(&attrs),
        lines(&["first", "second", " third", ""])
    );
}

#[test]
fn doc_lines_of_two_lists_follow_each_other() {
    let mut attrs = vec![doc_attr("doc", " a"), doc_attr("doc", " b")];
    let mut all = extract_doc_lines(&attrs);
    let more = vec![doc_attr("doc", " c")];
    all.extend(extract_doc_lines(&more));
    attrs.extend(more);
    assert_eq!(extract_doc_lines(&attrs), all);
}

#[test]
fn docs_are_escaped() {
    assert_eq!(docs_to_json_array(&[]), "[]");
    assert_eq!(
        docs_to_json_array(&lines(&["a \"quoted\" word", "back\\slash", "é"])),
        r#"["a \"quoted\" word","back\\slash","é"]"#
    );
    assert_eq!(
        docs_to_json_array(&lines(&["\u{8}\t\n\u{c}\r\u{1}\u{1f}\u{7f}"])),
        "[\"\\b\\t\\n\\f\\r\\u0001\\u001f\u{7f}\"]"
    );
}

#[test]
fn different_strings_print_differently() {
    let texts = ["\\n", "\n", "\\\\n", "n", "\"", "\\\""];
    for a in texts {
        for b in texts {
            let same = docs_to_json_array(&lines(&[a])) == docs_to_json_array(&lines(&[b]));
            assert_eq!(same, a == b);
            let printed = docs_to_json_array(&lines(&[a]));
            assert_eq!(json(&printed)[0], Value::String(a.to_string()));
        }
    }
}

#[test]
fn discriminator_bytes_are_listed() {
    assert_eq!(disc_json(&[0, 7, 255]), "[0,7,255]");
    assert_eq!(disc_json(&[]), "[]");
}

#[test]
fn different_lists_print_differently() {
    let bytes: [&[u8]; 6] = [&[], &[0], &[1, 23], &[12, 3], &[123], &[1, 2, 3]];
    for (i, a) in bytes.iter().enumerate() {
        for (k, b) in bytes.iter().enumerate() {
            assert_eq!(disc_json(a) == disc_json(b), i == k);
        }
    }
    let docs = [
        lines(&[]),
        lines(&[""]),
        lines(&["", ""]),
        lines(&["a,b"]),
        lines(&["a", "b"]),
        lines(&["a\",\"b"]),
        lines(&["a\\", "b"]),
    ];
    for (i, a) in docs.iter().enumerate() {
        for (k, b) in docs.iter().enumerate() {
            assert_eq!(docs_to_json_array(a) == docs_to_json_array(b), i == k);
        }
    }
}

#[test]
fn different_account_entries_print_differently() {
    let entries: [(&str, &[u8]); 5] = [
        ("A", &[1]),
        ("B", &[1]),
        ("A", &[1, 1]),
        ("A\"", &[1]),
        ("", &[11]),
    ];
    for (i, a) in entries.iter().enumerate() {
        for (k, b) in entries.iter().enumerate() {
            let left = build_account_entry_string(a.0, a.1);
            let right = build_account_entry_string(b.0, b.1);
            assert_eq!(left == right, i == k);
        }
    }
}

#[test]
fn account_entry_needs_a_discriminator() {
    assert_eq!(build_account_entry_string("Counter", &[]), None);
    assert_eq!(
        build_account_entry_string("Counter", &[1, 2]),
        Some(r#"{"discriminator":[1,2],"name":"Counter"}"#.to_string())
    );
}

// ---------------------------------------------------------------------------
// Names, numbers and texts
// ---------------------------------------------------------------------------

#[test]
fn module_paths_of_known_types_are_stripped() {
    for prefix in [
        "core::primitive::",
        "std::primitive::",
        "alloc::vec::",
        "std::vec::",
        "alloc::string::",
        "std::string::",
        "alloc::boxed::",
        "std::boxed::",
        "core::option::",
        "std::option::",
        "solana_pubkey::",
        "solana_program::pubkey::",
        "solana_address::",
        "pinocchio::address::",
        "anchor_lang::pod::",
        "anchor_lang::prelude::",
    ] {
        assert_eq!(normalize_builtin_path(&format!("{}Name", prefix)), "Name");
        assert_eq!(normalize_builtin_path(&format!("::{}Name", prefix)), "Name");
    }
    assert_eq!(normalize_builtin_path("::::u8"), "u8");
    assert_eq!(normalize_builtin_path(":u8"), ":u8");
    assert_eq!(normalize_builtin_path("my::std::vec::Vec"), "my::std::vec::Vec");
    assert_eq!(
        normalize_builtin_path("std::vec::std::vec::Vec"),
        "std::vec::Vec"
    );
}

#[test]
fn numbers_are_read_up_to_their_bound() {
    assert_eq!(parse_number("255", 255), Some(255));
    assert_eq!(parse_number("256", 255), None);
    assert_eq!(parse_number("007", 255), Some(7));
    assert_eq!(parse_number("", 255), None);
    assert_eq!(parse_number("-1", 255), None);
    assert_eq!(
        parse_number(&usize::MAX.to_string(), usize::MAX),
        Some(usize::MAX)
    );
    assert_eq!(
        parse_number(&format!("{}0", usize::MAX), usize::MAX),
        None
    );
}

#[test]
fn texts_are_split_at_the_first_occurrence() {
    assert_eq!(split_once("a::b::c", "::"), Some(("a", "b::c")));
    assert_eq!(split_once("éaé", "é"), Some(("", "aé")));
    assert_eq!(split_once("abc", "d"), None);
    assert_eq!(split_once("aab", "ab"), Some(("a", "")));
    assert_eq!(split_once("abc", ""), Some(("", "abc")));
    assert_eq!(split_once("", ""), Some(("", "")));
    assert_eq!(without_spaces(" a b  c\n"), "abc\n");
}

// ---------------------------------------------------------------------------
// Representations
// ---------------------------------------------------------------------------

fn modifier(name: &str, arg: ReprArg) -> ReprModifier {
    ReprModifier {
        name: Some(name.to_string()),
        arg,
    }
}

fn digits(s: &str) -> ReprArg {
    ReprArg::Digits(s.to_string(), Span::call_site(), Span::call_site())
}

fn applied(modifiers: Vec<ReprModifier>) -> Result<(bool, Option<usize>), &'static str> {
    match apply_modifiers(BytemuckRepr::default(), modifiers) {
        Ok(repr) => Ok((repr.packed, repr.align)),
        Err(ReprError::PackedWidth(_)) => Err("packed width"),
        Err(ReprError::NumberTooLarge(_)) => Err("too large"),
        Err(ReprError::InvalidDigit(_)) => Err("invalid digit"),
        Err(_) => Err("other"),
    }
}

#[test]
fn modifiers_are_applied_in_order() {
    assert_eq!(applied(vec![]), Ok((false, None)));
    assert_eq!(
        applied(vec![
            modifier("C", ReprArg::Word),
            modifier("packed", ReprArg::Word),
            modifier("align", digits("8")),
            modifier("align", digits("4")),
        ]),
        Ok((true, Some(4)))
    );
    assert_eq!(
        applied(vec![modifier("packed", digits("1"))]),
        Ok((true, None))
    );
    assert_eq!(
        applied(vec![
            modifier("packed", digits("2")),
            modifier("align", digits("x")),
        ]),
        Err("packed width")
    );
    assert_eq!(
        applied(vec![modifier("packed", digits("0"))]),
        Err("packed width")
    );
    assert_eq!(
        applied(vec![modifier("align", digits("99999999999999999999999"))]),
        Err("too large")
    );
    assert_eq!(
        applied(vec![modifier("align", digits("-8"))]),
        Err("invalid digit")
    );
    assert_eq!(
        applied(vec![
            modifier("other", digits("3")),
            modifier("packed", ReprArg::Value),
            modifier("align", ReprArg::Word),
            ReprModifier {
                name: None,
                arg: ReprArg::Word,
            },
        ]),
        Ok((false, None))
    );
}

#[test]
fn one_modifier_keeps_the_rest() {
    let start = BytemuckRepr {
        packed: true,
        align: Some(2),
    };
    match apply_modifier(start, modifier("align", digits("64"))) {
        Ok(repr) => {
            assert!(repr.packed);
            assert_eq!(repr.align, Some(64));
        }
        Err(_) => panic!("align(64) should apply"),
    }
}

// ---------------------------------------------------------------------------
// Type definitions
// ---------------------------------------------------------------------------

fn header(name: &str, docs: &[&str], kind: TypeKind, generics: &Generics, of: &str) -> String {
    let (prefix, suffix) = type_def_header_parts(name, &lines(docs), kind, generics, of);
    format!("{}<>{}", prefix, suffix)
}

#[test]
fn headers_surround_the_payload() {
    assert_eq!(
        header("A", &[], TypeKind::Borsh, &no_generics(), "struct"),
        r#"{"name":"A","type":{"fields":[<>],"kind":"struct"}}"#
    );
    assert_eq!(
        header("A", &["one", "two"], TypeKind::Borsh, &no_generics(), "enum"),
        r#"{"docs":["one","two"],"name":"A","type":{"kind":"enum","variants":[<>]}}"#
    );
}

#[test]
fn headers_carry_layout_and_parameters() {
    let generics = Generics {
        params: vec![
            GenericParam::Lifetime,
            GenericParam::Type("T".to_string()),
            GenericParam::Const("N".to_string(), tokens("usize")),
        ],
    };
    let kind = TypeKind::BytemuckRepr(BytemuckRepr {
        packed: true,
        align: Some(16),
    });
    let text = header("A", &[], kind, &generics, "struct");
    let expected = [
        r#"{"generics":[{"kind":"type","name":"T"},"#,
        r#"{"kind":"const","name":"N","type":"usize"}],"name":"A","#,
        r#""repr":{"align":16,"kind":"c","packed":true},"serialization":"bytemuck","#,
        r#""type":{"fields":[<>],"kind":"struct"}}"#,
    ]
    .concat();
    assert_eq!(text, expected);
    let plain = TypeKind::BytemuckRepr(BytemuckRepr::default());
    assert_eq!(
        header("A", &[], plain, &no_generics(), "struct"),
        [
            r#"{"name":"A","repr":{"kind":"c"},"serialization":"bytemuck","#,
            r#""type":{"fields":[<>],"kind":"struct"}}"#,
        ]
        .concat()
    );
}

#[test]
fn documentation_that_is_the_marker_is_taken_for_the_payload() {
    assert_eq!(
        header(
            "A",
            &["__anchor_private_fields__"],
            TypeKind::Borsh,
            &no_generics(),
            "struct"
        ),
        [
            r#"{"docs":[<>],"name":"A","type":"#,
            r#"{"fields":["__anchor_private_fields__"],"kind":"struct"}}"#,
        ]
        .concat()
    );
    assert_eq!(
        header(
            "A",
            &["see __anchor_private_fields__ there"],
            TypeKind::Borsh,
            &no_generics(),
            "struct"
        ),
        [
            r#"{"docs":["see __anchor_private_fields__ there"],"name":"A","type":"#,
            r#"{"fields":[<>],"kind":"struct"}}"#,
        ]
        .concat()
    );
}

#[test]
fn struct_definition_is_exact() {
    let mut first = field(Some("count"), named_type("u64"));
    first.attrs.push(doc_attr("doc", " how many"));
    let mut second = field(Some("data"), array_type("u8", "LEN"));
    second.cfg_attrs.push(tokens("#[cfg(feature = \"x\")]"));
    let fields = Fields::Named(vec![first, second]);
    let expected = r#"
        {
            let mut __entries: anchor_lang::__alloc::vec::Vec<&'static str> =
                anchor_lang::__alloc::vec::Vec::new();
            __entries.push("{\"docs\":[\"howmany\"],\"name\":\"count\",\"type\":\"u64\"}");
            #[cfg(feature = "x")]
            __entries.push({
                let mut __s = anchor_lang::__alloc::string::String::new();
                __s.push_str("{\"name\":\"data\",\"type\":{\"array\":[\"u8\",");
                __s.push_str(
                    &anchor_lang::__alloc::string::ToString::to_string(&((LEN) as usize))
                );
                __s.push_str("]}}");
                anchor_lang::__alloc::boxed::Box::leak(__s.into_boxed_str()) as &'static str
            });
            let mut __s = anchor_lang::__alloc::string::String::from(
                "{\"name\":\"A\",\"type\":{\"fields\":["
            );
            let mut __first = true;
            for __entry in &__entries {
                if !__first {
                    __s.push(',');
                }
                __first = false;
                __s.push_str(__entry);
            }
            __s.push_str("],\"kind\":\"struct\"}}");
            ::core::option::Option::Some(
                anchor_lang::__alloc::boxed::Box::leak(__s.into_boxed_str()) as &'static str
            )
        }
    "#;
    let generated =
        build_struct_type_def_emission("A", &[], &fields, TypeKind::Borsh, &no_generics());
    assert_eq!(code(&generated), squashed(expected));
}

#[test]
fn tuple_and_unit_structs_are_defined() {
    let tuple = Fields::Unnamed(vec![
        field(None, named_type("u8")),
        field(None, named_type("Pubkey")),
    ]);
    let generated =
        build_struct_type_def_emission("P", &[], &tuple, TypeKind::Borsh, &no_generics());
    assert_eq!(
        literals(generated),
        lines(&[
            "\"u8\"",
            "\"pubkey\"",
            r#"{"name":"P","type":{"fields":["#,
            r#"],"kind":"struct"}}"#,
        ])
    );
    let generated =
        build_struct_type_def_emission("U", &[], &Fields::Unit, TypeKind::Borsh, &no_generics());
    assert_eq!(
        literals(generated),
        lines(&[
            r#"{"name":"U","type":{"fields":["#,
            r#"],"kind":"struct"}}"#,
        ])
    );
}

#[test]
fn field_types_see_the_parameters_of_the_item() {
    let generics = Generics {
        params: vec![
            GenericParam::Type("T".to_string()),
            GenericParam::Const("N".to_string(), tokens("usize")),
        ],
    };
    let fields = Fields::Named(vec![
        field(Some("a"), named_type("T")),
        field(Some("b"), array_type("u8", "N")),
    ]);
    let generated =
        build_struct_type_def_emission("G", &[], &fields, TypeKind::Borsh, &generics);
    let found = literals(generated);
    assert_eq!(found[0], r#"{"name":"a","type":{"generic":"T"}}"#);
    assert_eq!(
        found[1],
        r#"{"name":"b","type":{"array":["u8",{"generic":"N"}]}}"#
    );
}

#[test]
fn named_field_is_lowered_with_and_without_parameters() {
    let plain = field(Some("a"), array_type("u8", "N"));
    let generics = Generics {
        params: vec![GenericParam::Const("N".to_string(), tokens("usize"))],
    };
    let mut lowerer = TypeLowerer::with_generics(&generics);
    assert_eq!(
        named_field_value(&plain, &mut lowerer),
        json(r#"{ "name": "a", "type": { "array": ["u8", { "generic": "N" }] } }"#)
    );
    let mut lowerer = TypeLowerer::default();
    let value = named_field_value(&plain, &mut lowerer);
    assert_eq!(
        literals(lowerer.finish(value)),
        lines(&[r#"{"name":"a","type":{"array":["u8","#, "]}}"])
    );
}

#[test]
fn open_lengths_are_filled_in_under_any_other_key() {
    let ty = array_type("u8", "N");
    let mut lowerer = TypeLowerer::default();
    let value = lowerer.lower(&ty);
    let mut object = serde_json::Map::new();
    object.insert("__anchor_private_const".to_string(), value);
    assert_eq!(
        literals(lowerer.finish(Value::Object(object))),
        lines(&[r#"{"__anchor_private_const":{"array":["u8","#, "]}}"])
    );
}

#[test]
fn enum_definition_joins_its_variants() {
    let variants = vec![
        Variant {
            ident: "Empty".to_string(),
            fields: Fields::Unit,
            cfg_attrs: vec![tokens("#[cfg(test)]")],
        },
        Variant {
            ident: "Named".to_string(),
            fields: Fields::Named(vec![field(Some("x"), named_type("u8"))]),
            cfg_attrs: Vec::new(),
        },
        Variant {
            ident: "Tuple".to_string(),
            fields: Fields::Unnamed(vec![field(None, named_type("bool"))]),
            cfg_attrs: Vec::new(),
        },
    ];
    let generated =
        build_enum_type_def_emission("E", &[], &variants, TypeKind::Borsh, &no_generics());
    assert!(code(&generated).contains(r#"#[cfg(test)]__entries.push("{\"name\":\"Empty\"}");"#));
    assert_eq!(
        literals(generated),
        lines(&[
            r#"{"name":"Empty"}"#,
            r#"{"name":"x","type":"u8"}"#,
            r#"{"fields":["#,
            r#"],"name":"Named"}"#,
            "\"bool\"",
            r#"{"fields":["#,
            r#"],"name":"Tuple"}"#,
            r#"{"name":"E","type":{"kind":"enum","variants":["#,
            "]}}",
        ])
    );
}

#[test]
fn pieces_of_a_definition_print_it() {
    let tuple = Fields::Unnamed(vec![
        field(None, named_type("u8")),
        field(None, named_type("Pubkey")),
    ]);
    let pieces = literals(build_struct_type_def_emission(
        "P",
        &lines(&["a \"pair\""]),
        &tuple,
        TypeKind::Borsh,
        &no_generics(),
    ));
    let printed = format!("{}{}{}", pieces[2], pieces[..2].join(","), pieces[3]);
    assert_eq!(
        json(&printed),
        json(
            r#"{"name":"P","docs":["a \"pair\""],
                "type":{"kind":"struct","fields":["u8","pubkey"]}}"#
        )
    );

    let variants = vec![
        Variant {
            ident: "Empty".to_string(),
            fields: Fields::Unit,
            cfg_attrs: Vec::new(),
        },
        Variant {
            ident: "Full".to_string(),
            fields: tuple,
            cfg_attrs: Vec::new(),
        },
    ];
    let pieces = literals(build_enum_type_def_emission(
        "E",
        &[],
        &variants,
        TypeKind::Borsh,
        &no_generics(),
    ));
    let full = format!("{}{}{}", pieces[3], pieces[1..3].join(","), pieces[4]);
    let printed = format!("{}{},{}{}", pieces[5], pieces[0], full, pieces[6]);
    assert_eq!(
        json(&printed),
        json(
            r#"{"name":"E","type":{"kind":"enum","variants":[
                {"name":"Empty"},{"name":"Full","fields":["u8","pubkey"]}]}}"#
        )
    );
}

#[test]
fn variant_named_like_the_marker_keeps_its_fields() {
    let variants = vec![Variant {
        ident: "__anchor_private_variant_fields__".to_string(),
        fields: Fields::Unnamed(Vec::new()),
        cfg_attrs: Vec::new(),
    }];
    let generated =
        build_enum_type_def_emission("E", &[], &variants, TypeKind::Borsh, &no_generics());
    assert_eq!(
        literals(generated)[..2].to_vec(),
        lines(&[
            r#"{"fields":["#,
            r#"],"name":"__anchor_private_variant_fields__"}"#,
        ])
    );
}

// ---------------------------------------------------------------------------
// Account lists
// ---------------------------------------------------------------------------

const FRAME_START: &str = r#"
    #[doc = " **Opaque / unstable.** Returns the IDL JSON for this Accounts"]
    #[doc = " struct's account list. Implementation detail of the IDL build"]
    #[doc = " pipeline; do not rely on the shape or call this directly."]
    #[doc(hidden)]
    pub fn __idl_accounts() -> anchor_lang::__alloc::string::String {
        let __parts: anchor_lang::__alloc::vec::Vec<
            anchor_lang::__alloc::string::String
        > = anchor_lang::__alloc::vec![
"#;

const FRAME_END: &str = r#"
        ];
        let mut __s = anchor_lang::__alloc::string::String::from("[");
        let mut __first = true;
        for __p in &__parts {
            if __p.is_empty() { continue; }
            if !__first { __s.push(','); }
            __first = false;
            __s.push_str(__p);
        }
        __s.push(']');
        __s
    }
"#;

fn framed(parts: &str) -> String {
    squashed(&format!("{}{}{}", FRAME_START, parts, FRAME_END))
}

fn account<'a>(name: &'a str, field_ty: &'a Option<Type>) -> AccountsJsonField<'a> {
    AccountsJsonField {
        name,
        writable: false,
        init_signer: false,
        is_optional: false,
        relations: Vec::new(),
        docs: &[],
        pda_json: None,
        field_ty,
        address_override: None,
        address_override_expr: None,
        nested_inner_ty: None,
    }
}

#[test]
fn empty_account_list_is_exact() {
    assert_eq!(code(&build_accounts_emission(&[])), framed(""));
}

#[test]
fn account_with_a_type_is_exact() {
    let ty = Some(named_type("Signer"));
    let mut user = account("user", &ty);
    user.writable = true;
    let expected = r#"
        {
            let __signer = <Signer as anchor_lang::IdlAccountType>::__IDL_IS_SIGNER || false;
            let __signer_json: &str = if __signer { ",\"signer\":true" } else { "" };
            let __addr = <Signer as anchor_lang::IdlAccountType>::__IDL_ADDRESS;
            let __addr_json: anchor_lang::__alloc::string::String = match __addr {
                Some(a) => anchor_lang::__alloc::format!(
                    ",\"address\":{}",
                    anchor_lang::idl_build::__idl_json_string(a),
                ),
                None => anchor_lang::__alloc::string::String::new(),
            };
            let __pda_json: anchor_lang::__alloc::string::String =
                anchor_lang::__alloc::string::String::new();
            anchor_lang::__alloc::format!(
                "{{\"name\":\"{}\"{}{}{}{}{}{}{}}}",
                "user",
                ",\"writable\":true",
                __signer_json,
                __addr_json,
                "",
                "",
                "",
                __pda_json,
            )
        }
    "#;
    assert_eq!(code(&build_accounts_emission(&[user])), framed(expected));
}

#[test]
fn account_with_everything_is_exact() {
    let ty = Some(named_type("T"));
    let docs = lines(&["a\"b"]);
    let expr = tokens("ADDRESS");
    let mut vault = account("vault", &ty);
    vault.init_signer = true;
    vault.is_optional = true;
    vault.relations = vec!["one", "two"];
    vault.docs = &docs;
    vault.pda_json = Some(tokens("pda()"));
    vault.address_override = Some("data.authority");
    vault.address_override_expr = Some(&expr);
    let expected = r#"
        {
            let __signer = <T as anchor_lang::IdlAccountType>::__IDL_IS_SIGNER || true;
            let __signer_json: &str = if __signer { ",\"signer\":true" } else { "" };
            let __addr: anchor_lang::Address = ::core::convert::Into::into(ADDRESS);
            let __addr_string = anchor_lang::__alloc::format!("{}", __addr);
            let __addr_json: anchor_lang::__alloc::string::String =
                anchor_lang::__alloc::format!(
                    ",\"address\":{}",
                    anchor_lang::idl_build::__idl_json_string(&__addr_string),
                );
            let __pda_json: anchor_lang::__alloc::string::String = {
                let __body: anchor_lang::__alloc::string::String = pda();
                anchor_lang::__alloc::format!(",\"pda\":{}", __body)
            };
            anchor_lang::__alloc::format!(
                "{{\"name\":\"{}\"{}{}{}{}{}{}{}}}",
                "vault",
                "",
                __signer_json,
                __addr_json,
                ",\"optional\":true",
                ",\"relations\":[\"one\",\"two\"]",
                ",\"docs\":[\"a\\\"b\"]",
                __pda_json,
            )
        }
    "#;
    assert_eq!(code(&build_accounts_emission(&[vault])), framed(expected));
}

#[test]
fn account_without_a_type_is_exact() {
    let none = None;
    let expr = tokens("IGNORED");
    let mut plain = account("a", &none);
    plain.init_signer = true;
    plain.address_override = Some("data.key");
    plain.address_override_expr = Some(&expr);
    let bare = account("b", &none);
    let expected = r#"
        {
            let __addr_json: anchor_lang::__alloc::string::String =
                anchor_lang::__alloc::format!(
                    ",\"address\":{}",
                    anchor_lang::idl_build::__idl_json_string("data.key"),
                );
            let __pda_json: anchor_lang::__alloc::string::String =
                anchor_lang::__alloc::string::String::new();
            anchor_lang::__alloc::format!(
                "{{\"name\":\"{}\"{}{}{}{}{}{}{}}}",
                "a", "", ",\"signer\":true", __addr_json, "", "", "", __pda_json,
            )
        },
        {
            let __addr_json: anchor_lang::__alloc::string::String =
                anchor_lang::__alloc::string::String::new();
            let __pda_json: anchor_lang::__alloc::string::String =
                anchor_lang::__alloc::string::String::new();
            anchor_lang::__alloc::format!(
                "{{\"name\":\"{}\"{}{}{}{}{}{}{}}}",
                "b", "", "", __addr_json, "", "", "", __pda_json,
            )
        }
    "#;
    assert_eq!(
        code(&build_accounts_emission(&[plain, bare])),
        framed(expected)
    );
}

#[test]
fn address_path_goes_before_the_type() {
    let first = Some(named_type("A"));
    let mut a = account("a", &first);
    a.address_override = Some("x.y");
    let generated = code(&build_accounts_emission(&[a]));
    assert!(generated.contains("__idl_json_string(\"x.y\")"));
    assert!(!generated.contains("__IDL_ADDRESS"));
}

#[test]
fn nested_accounts_are_spliced() {
    let none = None;
    let inner = named_type("Inner");
    let mut nested = account("nested", &none);
    nested.nested_inner_ty = Some(&inner);
    let expected = r#"
        {
            let __inner = <Inner>::__idl_accounts();
            let __bytes = __inner.as_bytes();
            if __bytes.len() >= 2
                && __bytes[0] == b'['
                && __bytes[__bytes.len() - 1] == b']'
            {
                __inner[1..__inner.len() - 1].to_string()
            } else {
                __inner
            }
        }
    "#;
    assert_eq!(code(&build_accounts_emission(&[nested])), framed(expected));
}
