//! What the members of type definitions and fields are.

use crate::docs;
use crate::json::Json;
use crate::lower;
use crate::syntax::{Field, GenericParam, Generics};
use crate::text;
use crate::tokens;
use crate::typedefs::{self, BytemuckRepr, TypeKind};
use vstd::prelude::*;
use vstd::string::*;

verus! {

/// The value of a key in an object: that of the last field with the key.
pub open spec fn member(fields: Seq<(Seq<char>, Json)>, key: Seq<char>) -> Option<Json>
    decreases fields.len(),
{
    if fields.len() == 0 {
        None
    } else if fields.last().0 == key {
        Some(fields.last().1)
    } else {
        member(fields.drop_last(), key)
    }
}

/// All keys of the object are among the given ones.
pub open spec fn keys_among(fields: Seq<(Seq<char>, Json)>, keys: Seq<Seq<char>>) -> bool {
    forall|i: int| 0 <= i < fields.len() ==> keys.contains((#[trigger] fields[i]).0)
}

proof fn lemma_member_add(
    a: Seq<(Seq<char>, Json)>,
    b: Seq<(Seq<char>, Json)>,
    key: Seq<char>,
)
    ensures
        member(a + b, key) == match member(b, key) {
            Some(j) => Some(j),
            None => member(a, key),
        },
    decreases b.len(),
{
    if b.len() == 0 {
        assert(a + b =~= a);
    } else {
        assert((a + b).drop_last() =~= a + b.drop_last());
        lemma_member_add(a, b.drop_last(), key);
    }
}

proof fn lemma_member_one(field: (Seq<char>, Json), key: Seq<char>)
    ensures
        member(seq![field], key) == if field.0 == key {
            Some(field.1)
        } else {
            None
        },
        member(Seq::empty(), key) is None,
{
    assert(seq![field].drop_last() =~= Seq::empty());
}

proof fn lemma_member_if(set: bool, field: (Seq<char>, Json), key: Seq<char>)
    ensures
        member(typedefs::field_if(set, field.0, field.1), key) == if set && field.0 == key {
            Some(field.1)
        } else {
            None
        },
{
    lemma_member_one(field, key);
}

proof fn lemma_repr_keys()
    ensures
        "kind"@ != "packed"@,
        "kind"@ != "align"@,
        "packed"@ != "align"@,
{
    reveal_strlit("kind");
    reveal_strlit("packed");
    reveal_strlit("align");
    assert("kind"@[0] == 'k' && "packed"@[0] == 'p' && "align"@[0] == 'a');
}

/// The representation of a plain-old-data type: `"kind":"c"`, `"packed":true`
/// exactly if it is packed, and `"align":n` exactly if it is aligned to `n`.
pub open spec fn describes(fields: Seq<(Seq<char>, Json)>, repr: BytemuckRepr) -> bool {
    &&& keys_among(fields, seq!["kind"@, "packed"@, "align"@])
    &&& member(fields, "kind"@) == Some(Json::Text("c"@))
    &&& member(fields, "packed"@) == if repr.packed {
        Some(Json::True)
    } else {
        None
    }
    &&& member(fields, "align"@) == match repr.align {
        Some(n) => Some(Json::Number(n as nat)),
        None => None,
    }
}

proof fn lemma_repr(repr: BytemuckRepr)
    ensures
        describes(typedefs::repr_fields(repr), repr),
{
    lemma_repr_keys();
    let kind = ("kind"@, Json::Text("c"@));
    let packed = ("packed"@, Json::True);
    let align = ("align"@, Json::Number(repr.align->0 as nat));
    let a = seq![kind];
    let b = typedefs::field_if(repr.packed, packed.0, packed.1);
    let c = typedefs::field_if(repr.align is Some, align.0, align.1);
    let all = typedefs::repr_fields(repr);
    lemma_member_one(kind, "kind"@);
    lemma_member_one(kind, "packed"@);
    lemma_member_one(kind, "align"@);
    lemma_member_if(repr.packed, packed, "kind"@);
    lemma_member_if(repr.packed, packed, "packed"@);
    lemma_member_if(repr.packed, packed, "align"@);
    lemma_member_if(repr.align is Some, align, "kind"@);
    lemma_member_if(repr.align is Some, align, "packed"@);
    lemma_member_if(repr.align is Some, align, "align"@);
    lemma_member_add(a, b, "kind"@);
    lemma_member_add(a, b, "packed"@);
    lemma_member_add(a, b, "align"@);
    lemma_member_add(a + b, c, "kind"@);
    lemma_member_add(a + b, c, "packed"@);
    lemma_member_add(a + b, c, "align"@);
    let keys = seq!["kind"@, "packed"@, "align"@];
    assert(keys[0] == "kind"@ && keys[1] == "packed"@ && keys[2] == "align"@);
    assert forall|i: int| 0 <= i < all.len() implies keys.contains((#[trigger] all[i]).0) by {
        assert(all[i] == kind || all[i] == packed || all[i] == align);
    }
}

// ---------------------------------------------------------------------------
// Type definitions
// ---------------------------------------------------------------------------

proof fn lemma_header_keys()
    ensures
        "name"@ != "docs"@,
        "name"@ != "generics"@,
        "name"@ != "serialization"@,
        "name"@ != "repr"@,
        "name"@ != "type"@,
        "docs"@ != "generics"@,
        "docs"@ != "serialization"@,
        "docs"@ != "repr"@,
        "docs"@ != "type"@,
        "generics"@ != "serialization"@,
        "generics"@ != "repr"@,
        "generics"@ != "type"@,
        "serialization"@ != "repr"@,
        "serialization"@ != "type"@,
        "repr"@ != "type"@,
        "kind"@ != "fields"@,
        "kind"@ != "variants"@,
{
    reveal_strlit("name");
    reveal_strlit("docs");
    reveal_strlit("generics");
    reveal_strlit("serialization");
    reveal_strlit("repr");
    reveal_strlit("type");
    reveal_strlit("kind");
    reveal_strlit("fields");
    reveal_strlit("variants");
    assert("name"@[0] == 'n' && "docs"@[0] == 'd' && "generics"@[0] == 'g' && "serialization"@[0]
        == 's' && "repr"@[0] == 'r' && "type"@[0] == 't' && "kind"@[0] == 'k' && "fields"@[0] == 'f'
        && "variants"@[0] == 'v');
}

/// The IDL forms of the type and constant parameters, in order.
pub open spec fn given_params(params: Seq<GenericParam>) -> Seq<Json>
    decreases params.len(),
{
    if params.len() == 0 {
        Seq::empty()
    } else {
        given_params(params.drop_last()) + (match params.last() {
            GenericParam::Type(name) => seq![
                Json::Object(seq![("kind"@, Json::Text("type"@)), ("name"@, Json::Text(name@))]),
            ],
            GenericParam::Const(name, ty) => seq![
                Json::Object(
                    seq![
                        ("kind"@, Json::Text("const"@)),
                        ("name"@, Json::Text(name@)),
                        ("type"@, Json::Text(text::unspaced(tokens::stream_text(ty)))),
                    ],
                ),
            ],
            GenericParam::Lifetime => Seq::empty(),
        })
    }
}

proof fn lemma_params(params: Seq<GenericParam>)
    ensures
        typedefs::generic_docs(params) == given_params(params),
    decreases params.len(),
{
    if params.len() > 0 {
        lemma_params(params.drop_last());
        assert(typedefs::generic_docs(params) =~= given_params(params));
    }
}

/// The member of a type definition, whatever its layout.
spec fn plain_member(
    name: Seq<char>,
    lines: Seq<String>,
    generics: Generics,
    key: Seq<char>,
) -> Option<Json> {
    let params = given_params(generics.params@);
    if key == "name"@ {
        Some(Json::Text(name))
    } else if key == "docs"@ && lines.len() > 0 {
        Some(Json::List(Seq::new(lines.len(), |i: int| Json::Text(lines[i]@))))
    } else if key == "generics"@ && params.len() > 0 {
        Some(Json::List(params))
    } else {
        None
    }
}

proof fn lemma_header(
    name: Seq<char>,
    lines: Seq<String>,
    kind: TypeKind,
    generics: Generics,
    key: Seq<char>,
)
    requires
        key == "name"@ || key == "docs"@ || key == "generics"@ || key == "serialization"@ || key
            == "repr"@ || key == "type"@,
    ensures
        member(typedefs::header_fields(name, lines, kind, generics), key) == if key
            == "serialization"@ && kind is BytemuckRepr {
            Some(Json::Text("bytemuck"@))
        } else if key == "repr"@ && kind is BytemuckRepr {
            Some(Json::Object(typedefs::repr_fields(kind->BytemuckRepr_0)))
        } else {
            plain_member(name, lines, generics, key)
        },
{
    lemma_header_keys();
    lemma_params(generics.params@);
    let params = given_params(generics.params@);
    let named = ("name"@, Json::Text(name));
    let list = docs::docs_json(text::views(lines));
    assert(list->List_0 =~= Seq::new(lines.len(), |i: int| Json::Text(lines[i]@)));
    let a = seq![named];
    let b = typedefs::field_if(lines.len() > 0, "docs"@, list);
    let c = typedefs::field_if(params.len() > 0, "generics"@, Json::List(params));
    let d = typedefs::kind_fields(kind);
    lemma_member_one(named, key);
    lemma_member_if(lines.len() > 0, ("docs"@, list), key);
    lemma_member_if(params.len() > 0, ("generics"@, Json::List(params)), key);
    lemma_member_add(a, b, key);
    lemma_member_add(a + b, c, key);
    lemma_member_add(a + b + c, d, key);
    match kind {
        TypeKind::Borsh => {},
        TypeKind::BytemuckRepr(repr) => {
            let first = ("serialization"@, Json::Text("bytemuck"@));
            let second = ("repr"@, Json::Object(typedefs::repr_fields(repr)));
            lemma_member_one(first, key);
            lemma_member_one(second, key);
            lemma_member_add(seq![first], seq![second], key);
            assert(d =~= seq![first] + seq![second]);
        },
    }
}

/// A type definition has its name; its documentation lines, its generic
/// parameters, and the serialization and representation of a plain-old-data
/// type where there are any; and its type: the kind and, under `fields` or
/// `variants`, the payload. It has nothing else.
pub proof fn law_type_definitions_have_their_members(
    name: Seq<char>,
    lines: Seq<String>,
    kind: TypeKind,
    generics: Generics,
    kind_name: Seq<char>,
    payload: Json,
)
    ensures
        typedefs::type_def_json(name, lines, kind, generics, kind_name, payload) matches Json::Object(
            fields,
        ) && {
            let params = given_params(generics.params@);
            &&& keys_among(
                fields,
                seq!["name"@, "docs"@, "generics"@, "serialization"@, "repr"@, "type"@],
            )
            &&& member(fields, "name"@) == Some(Json::Text(name))
            &&& member(fields, "docs"@) == if lines.len() > 0 {
                Some(Json::List(Seq::new(lines.len(), |i: int| Json::Text(lines[i]@))))
            } else {
                None
            }
            &&& member(fields, "generics"@) == if params.len() > 0 {
                Some(Json::List(params))
            } else {
                None
            }
            &&& kind is Borsh ==> member(fields, "serialization"@) is None && member(
                fields,
                "repr"@,
            ) is None
            &&& kind matches TypeKind::BytemuckRepr(repr) ==> member(fields, "serialization"@)
                == Some(Json::Text("bytemuck"@)) && (member(fields, "repr"@) matches Some(
                Json::Object(layout),
            ) && describes(layout, repr))
            &&& member(fields, "type"@) == Some(
                Json::Object(
                    seq![
                        ("kind"@, Json::Text(kind_name)),
                        (
                            if kind_name == "enum"@ {
                                "variants"@
                            } else {
                                "fields"@
                            },
                            payload,
                        ),
                    ],
                ),
            )
        },
{
    let head = typedefs::header_fields(name, lines, kind, generics);
    let ty = ("type"@, Json::Object(typedefs::type_fields(kind_name, payload)));
    let all = head.push(ty);
    lemma_header_keys();
    lemma_header(name, lines, kind, generics, "name"@);
    lemma_header(name, lines, kind, generics, "docs"@);
    lemma_header(name, lines, kind, generics, "generics"@);
    lemma_header(name, lines, kind, generics, "serialization"@);
    lemma_header(name, lines, kind, generics, "repr"@);
    assert(all.drop_last() =~= head);
    if let TypeKind::BytemuckRepr(repr) = kind {
        lemma_repr(repr);
    }
    let keys = seq!["name"@, "docs"@, "generics"@, "serialization"@, "repr"@, "type"@];
    assert(keys[0] == "name"@ && keys[1] == "docs"@ && keys[2] == "generics"@ && keys[3]
        == "serialization"@ && keys[4] == "repr"@ && keys[5] == "type"@);
    let kinds = typedefs::kind_fields(kind);
    assert forall|i: int| 0 <= i < all.len() implies keys.contains((#[trigger] all[i]).0) by {
        let front = head.len() - kinds.len();
        if i == head.len() {
            assert(all[i] == ty);
        } else if i >= front {
            assert(all[i] == kinds[i - front]);
            assert(all[i].0 == "serialization"@ || all[i].0 == "repr"@);
        } else {
            assert(all[i] == head[i]);
            assert(all[i].0 == "name"@ || all[i].0 == "docs"@ || all[i].0 == "generics"@);
        }
    }
}

/// A named field has its name, its documentation lines where there are any, and
/// its type.
pub proof fn law_named_fields_have_their_members(
    f: Field,
    generics: Option<&Generics>,
    next: nat,
)
    ensures
        typedefs::field_json(f, generics, next) == Json::Object(
            if docs::doc_lines(f.attrs@).len() > 0 {
                seq![
                    ("name"@, Json::Text(f.ident->0@)),
                    (
                        "docs"@,
                        Json::List(
                            Seq::new(
                                docs::doc_lines(f.attrs@).len(),
                                |i: int| Json::Text(docs::doc_lines(f.attrs@)[i]),
                            ),
                        ),
                    ),
                    ("type"@, lower::lowered(f.ty, generics, next)),
                ]
            } else {
                seq![
                    ("name"@, Json::Text(f.ident->0@)),
                    ("type"@, lower::lowered(f.ty, generics, next)),
                ]
            },
        ),
{
    let lines = docs::doc_lines(f.attrs@);
    let fields = typedefs::field_json(f, generics, next)->Object_0;
    if lines.len() > 0 {
        assert(fields =~= seq![
            ("name"@, Json::Text(f.ident->0@)),
            ("docs"@, Json::List(Seq::new(lines.len(), |i: int| Json::Text(lines[i])))),
            ("type"@, lower::lowered(f.ty, generics, next)),
        ]);
    } else {
        assert(fields =~= seq![
            ("name"@, Json::Text(f.ident->0@)),
            ("type"@, lower::lowered(f.ty, generics, next)),
        ]);
    }
}

/// A field is given by its name and its type, or by its type alone.
pub proof fn law_fields_are_given_by_their_names_and_types(
    f: Field,
    named: bool,
    generics: Generics,
)
    ensures
        typedefs::field_document(f, named, generics) == if named {
            typedefs::field_json(f, Some(&generics), 0)
        } else {
            lower::lowered(f.ty, Some(&generics), 0)
        },
{
}

} // verus!
