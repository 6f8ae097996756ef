//! What the generated account lists print.

use crate::accounts::{self, AccountsJsonField, AddressSource, ByteTest, EntryArg, LetStep};
use crate::docs;
use crate::formats::{self, Piece};
use crate::json;
use crate::pushes::{self, nonempty};
use crate::setting::Build;
use crate::text;
use crate::tokens;
use vstd::prelude::*;
use vstd::string::*;
use vstd::utf8;

verus! {

// ---------------------------------------------------------------------------
// One entry
// ---------------------------------------------------------------------------

/// What the statements of [`accounts::address_stmts`] bind.
pub open spec fn address_text(source: AddressSource, build: Build) -> Seq<char> {
    match source {
        AddressSource::Expr(expr) => {
            let shown = formats::formatted(accounts::shown_pieces((build.shown)(expr)));
            formats::formatted(accounts::address_pieces((build.json_string)(shown)))
        },
        AddressSource::Path(path) => formats::formatted(
            accounts::address_pieces((build.json_string)(path)),
        ),
        AddressSource::Constant(ty) => match (build.address)(ty) {
            Some(a) => formats::formatted(accounts::address_pieces((build.json_string)(a))),
            None => Seq::empty(),
        },
        AddressSource::Unknown => Seq::empty(),
    }
}

/// What a binding binds.
pub open spec fn let_text(step: LetStep, build: Build) -> Seq<char> {
    match step {
        LetStep::Signer(ty, init_signer) => accounts::flag_text(
            (build.signs)(ty) || init_signer,
            ",\"signer\":true"@,
        ),
        LetStep::Address(source) => address_text(source, build),
        LetStep::Pda(pda) => match pda {
            Some(body) => formats::formatted(accounts::pda_pieces((build.string)(body))),
            None => Seq::empty(),
        },
    }
}

/// The variables after the bindings.
pub open spec fn variables(steps: Seq<LetStep>, build: Build) -> Map<Seq<char>, Seq<char>>
    decreases steps.len(),
{
    if steps.len() == 0 {
        Map::empty()
    } else {
        variables(steps.drop_last(), build).insert(
            accounts::let_var(steps.last()),
            let_text(steps.last(), build),
        )
    }
}

pub open spec fn entry_arg_text(arg: EntryArg, vars: Map<Seq<char>, Seq<char>>) -> Seq<char> {
    match arg {
        EntryArg::Literal(s) => s,
        EntryArg::Variable(name) => vars[name],
    }
}

/// What the test of the bytes gives.
pub open spec fn byte_test_holds(test: ByteTest, bytes: Seq<u8>) -> bool {
    match test {
        ByteTest::AtLeast(n) => bytes.len() >= n,
        ByteTest::First(byte) => bytes[0] == byte,
        ByteTest::Last(byte) => bytes[bytes.len() - 1] == byte,
    }
}

/// What the block of a nested struct makes of the list of that struct.
pub open spec fn unbracketed(s: Seq<char>) -> Seq<char> {
    let bytes = utf8::encode_utf8(s);
    let cut = accounts::BRACKET_LEN as int;
    if forall|i: int|
        0 <= i < accounts::bracket_tests().len() ==> byte_test_holds(
            #[trigger] accounts::bracket_tests()[i],
            bytes,
        ) {
        utf8::decode_utf8(bytes.subrange(cut, bytes.len() - cut))
    } else {
        s
    }
}

/// What the block [`accounts::field_part`] evaluates to.
pub open spec fn field_text(f: AccountsJsonField, build: Build) -> Seq<char> {
    match f.nested_inner_ty {
        Some(inner) => unbracketed((build.accounts)(tokens::stream_tokens(inner.tokens))),
        None => {
            let vars = variables(accounts::let_steps(f), build);
            formats::formatted(
                accounts::entry_pieces(f, |arg: EntryArg| entry_arg_text(arg, vars)),
            )
        },
    }
}

/// The account signs if its type does or if the field says so.
pub open spec fn account_signs(f: AccountsJsonField, build: Build) -> bool {
    f.init_signer || match *f.field_ty {
        Some(ty) => (build.signs)(tokens::stream_tokens(ty.tokens)),
        None => false,
    }
}

/// The JSON of the address, if there is one.
pub open spec fn address_value(f: AccountsJsonField, build: Build) -> Option<Seq<char>> {
    match accounts::address_source(f) {
        AddressSource::Expr(expr) => Some((build.json_string)((build.shown)(expr))),
        AddressSource::Path(path) => Some((build.json_string)(path)),
        AddressSource::Constant(ty) => match (build.address)(ty) {
            Some(a) => Some((build.json_string)(a)),
            None => None,
        },
        AddressSource::Unknown => None,
    }
}

/// The JSON of the PDA, if there is one.
pub open spec fn pda_value(f: AccountsJsonField, build: Build) -> Option<Seq<char>> {
    match f.pda_json {
        Some(ts) => Some((build.string)(tokens::stream_tokens(ts))),
        None => None,
    }
}

pub open spec fn optional_text(prefix: Seq<char>, value: Option<Seq<char>>) -> Seq<char> {
    match value {
        Some(v) => prefix + v,
        None => Seq::empty(),
    }
}

/// The members of an entry one after the other, between braces.
spec fn account_text(
    f: AccountsJsonField,
    signs: bool,
    address: Option<Seq<char>>,
    pda: Option<Seq<char>>,
) -> Seq<char> {
    "{\"name\":\""@ + f.name@ + "\""@ + accounts::flag_text(f.writable, ",\"writable\":true"@)
        + accounts::flag_text(signs, ",\"signer\":true"@) + optional_text(
        ",\"address\":"@,
        address,
    ) + accounts::flag_text(f.is_optional, ",\"optional\":true"@) + accounts::relations_text(
        f.relations@,
    ) + accounts::docs_text(f.docs@) + optional_text(",\"pda\":"@, pda) + "}"@
}

pub open spec fn optional_entry(key: Seq<char>, value: Option<Seq<char>>) -> Seq<
    (Seq<char>, Seq<char>),
> {
    match value {
        Some(v) => seq![(key, v)],
        None => Seq::empty(),
    }
}

pub open spec fn flag_value(set: bool) -> Option<Seq<char>> {
    if set {
        Some("true"@)
    } else {
        None
    }
}

pub open spec fn quoted_all(names: Seq<&str>) -> Seq<Seq<char>> {
    Seq::new(names.len(), |i: int| json::quoted(names[i]@))
}

pub open spec fn relations_value(relations: Seq<&str>) -> Option<Seq<char>> {
    if relations.len() == 0 {
        None
    } else {
        Some(json::array_text(quoted_all(relations)))
    }
}

pub open spec fn docs_value(lines: Seq<String>) -> Option<Seq<char>> {
    if lines.len() == 0 {
        None
    } else {
        Some(json::json_text(docs::docs_json(text::views(lines))))
    }
}

/// The members of an account entry, in the order in which they are printed.
pub open spec fn account_entries(
    f: AccountsJsonField,
    signs: bool,
    address: Option<Seq<char>>,
    pda: Option<Seq<char>>,
) -> Seq<(Seq<char>, Seq<char>)> {
    seq![("name"@, json::quoted(f.name@))] + optional_entry("writable"@, flag_value(f.writable))
        + optional_entry("signer"@, flag_value(signs)) + optional_entry(
        "address"@,
        address,
    )
        + optional_entry("optional"@, flag_value(f.is_optional)) + optional_entry(
        "relations"@,
        relations_value(f.relations@),
    ) + optional_entry("docs"@, docs_value(f.docs@)) + optional_entry("pda"@, pda)
}

/// The text between quotes, as it is.
pub open spec fn in_quotes(s: Seq<char>) -> Seq<char> {
    seq!['"'] + s + seq!['"']
}

pub open spec fn relations_as_they_are(relations: Seq<&str>) -> Option<Seq<char>> {
    if relations.len() == 0 {
        None
    } else {
        Some(json::array_text(Seq::new(relations.len(), |i: int| in_quotes(relations[i]@))))
    }
}

/// The members of an account entry, names and relations being put between quotes
/// as they are.
pub open spec fn entries_as_they_are(
    f: AccountsJsonField,
    signs: bool,
    address: Option<Seq<char>>,
    pda: Option<Seq<char>>,
) -> Seq<(Seq<char>, Seq<char>)> {
    seq![("name"@, in_quotes(f.name@))] + optional_entry("writable"@, flag_value(f.writable))
        + optional_entry("signer"@, flag_value(signs)) + optional_entry("address"@, address)
        + optional_entry("optional"@, flag_value(f.is_optional)) + optional_entry(
        "relations"@,
        relations_as_they_are(f.relations@),
    ) + optional_entry("docs"@, docs_value(f.docs@)) + optional_entry("pda"@, pda)
}

/// All characters of the text stand for themselves in a string literal.
pub open spec fn is_plain_text(s: Seq<char>) -> bool {
    forall|i: int| 0 <= i < s.len() ==> json::is_plain(#[trigger] s[i])
}

proof fn lemma_entries_add(
    entries: Seq<(Seq<char>, Seq<char>)>,
    key: Seq<char>,
    value: Option<Seq<char>>,
    prefix: Seq<char>,
)
    requires
        entries.len() > 0,
        prefix == seq![','] + json::quoted(key) + seq![':'],
    ensures
        json::joined(json::entry_texts(entries + optional_entry(key, value)), ',')
            == json::joined(json::entry_texts(entries), ',') + optional_text(prefix, value),
{
    let all = entries + optional_entry(key, value);
    match value {
        Some(v) => {
            let texts = json::entry_texts(all);
            assert(texts.drop_last() =~= json::entry_texts(entries));
            assert(texts.last() == json::entry_text(key, v));
            assert(json::joined(texts, ',') =~= json::joined(json::entry_texts(entries), ',')
                + optional_text(prefix, value));
        },
        None => {
            assert(all =~= entries);
            assert(json::joined(json::entry_texts(entries), ',') + Seq::<char>::empty()
                =~= json::joined(json::entry_texts(entries), ','));
        },
    }
}

proof fn lemma_flag(set: bool, text: Seq<char>, prefix: Seq<char>)
    requires
        text == prefix + "true"@,
    ensures
        accounts::flag_text(set, text) == optional_text(prefix, flag_value(set)),
{
    reveal_strlit("");
    if !set {
        assert(accounts::flag_text(set, text) =~= Seq::empty());
    }
}

proof fn lemma_key_prefixes()
    ensures
        ",\"writable\":true"@ == (seq![','] + json::quoted("writable"@) + seq![':']) + "true"@,
        ",\"signer\":true"@ == (seq![','] + json::quoted("signer"@) + seq![':']) + "true"@,
        ",\"address\":"@ == seq![','] + json::quoted("address"@) + seq![':'],
        ",\"optional\":true"@ == (seq![','] + json::quoted("optional"@) + seq![':']) + "true"@,
        ",\"relations\":["@ == (seq![','] + json::quoted("relations"@) + seq![':']) + seq!['['],
        ",\"docs\":"@ == seq![','] + json::quoted("docs"@) + seq![':'],
        ",\"pda\":"@ == seq![','] + json::quoted("pda"@) + seq![':'],
        "{\"name\":\""@ == seq!['{'] + json::quoted("name"@) + seq![':'] + seq!['"'],
        "\""@ == seq!['"'],
        "]"@ == seq![']'],
        "}"@ == seq!['}'],
{
    reveal_strlit("true");
    reveal_strlit(",\"writable\":true");
    reveal_strlit(",\"signer\":true");
    reveal_strlit(",\"address\":");
    reveal_strlit(",\"optional\":true");
    reveal_strlit(",\"relations\":[");
    reveal_strlit(",\"docs\":");
    reveal_strlit(",\"pda\":");
    reveal_strlit("{\"name\":\"");
    reveal_strlit("\"");
    reveal_strlit("]");
    reveal_strlit("}");
    reveal_strlit("writable");
    reveal_strlit("signer");
    reveal_strlit("address");
    reveal_strlit("optional");
    reveal_strlit("relations");
    reveal_strlit("docs");
    reveal_strlit("pda");
    reveal_strlit("name");
    json::lemma_quoted_plain("writable"@);
    json::lemma_quoted_plain("signer"@);
    json::lemma_quoted_plain("address"@);
    json::lemma_quoted_plain("optional"@);
    json::lemma_quoted_plain("relations"@);
    json::lemma_quoted_plain("docs"@);
    json::lemma_quoted_plain("pda"@);
    json::lemma_quoted_plain("name"@);
    assert(",\"writable\":true"@ =~= (seq![','] + json::quoted("writable"@) + seq![':'])
        + "true"@);
    assert(",\"signer\":true"@ =~= (seq![','] + json::quoted("signer"@) + seq![':']) + "true"@);
    assert(",\"address\":"@ =~= seq![','] + json::quoted("address"@) + seq![':']);
    assert(",\"optional\":true"@ =~= (seq![','] + json::quoted("optional"@) + seq![':'])
        + "true"@);
    assert(",\"relations\":["@ =~= (seq![','] + json::quoted("relations"@) + seq![':']) + seq![
        '[',
    ]);
    assert(",\"docs\":"@ =~= seq![','] + json::quoted("docs"@) + seq![':']);
    assert(",\"pda\":"@ =~= seq![','] + json::quoted("pda"@) + seq![':']);
    assert("{\"name\":\""@ =~= seq!['{'] + json::quoted("name"@) + seq![':'] + seq!['"']);
    assert("\""@ =~= seq!['"']);
    assert("]"@ =~= seq![']']);
    assert("}"@ =~= seq!['}']);
}

proof fn lemma_relations(relations: Seq<&str>, prefix: Seq<char>)
    requires
        ",\"relations\":["@ == prefix + seq!['['],
        "\""@ == seq!['"'],
        "]"@ == seq![']'],
    ensures
        accounts::relations_text(relations) == optional_text(
            prefix,
            relations_as_they_are(relations),
        ),
{
    if relations.len() > 0 {
        assert(accounts::relation_texts(relations) =~= Seq::new(
            relations.len(),
            |i: int| in_quotes(relations[i]@),
        ));
        assert(accounts::relations_text(relations) =~= optional_text(
            prefix,
            relations_as_they_are(relations),
        ));
    }
}

proof fn lemma_reassociate(
    open: Seq<char>,
    a: Seq<char>,
    b: Seq<char>,
    c: Seq<char>,
    d: Seq<char>,
    e: Seq<char>,
    f: Seq<char>,
    g: Seq<char>,
    h: Seq<char>,
)
    ensures
        (open + a) + b + c + d + e + f + g + h == open + (a + b + c + d + e + f + g + h),
{
    assert((open + a) + b =~= open + (a + b));
    assert((open + (a + b)) + c =~= open + (a + b + c));
    assert((open + (a + b + c)) + d =~= open + (a + b + c + d));
    assert((open + (a + b + c + d)) + e =~= open + (a + b + c + d + e));
    assert((open + (a + b + c + d + e)) + f =~= open + (a + b + c + d + e + f));
    assert((open + (a + b + c + d + e + f)) + g =~= open + (a + b + c + d + e + f + g));
    assert((open + (a + b + c + d + e + f + g)) + h =~= open + (a + b + c + d + e + f + g + h));
}

proof fn lemma_account_text(
    f: AccountsJsonField,
    signs: bool,
    address: Option<Seq<char>>,
    pda: Option<Seq<char>>,
)
    ensures
        account_text(f, signs, address, pda) == json::object_text(
            entries_as_they_are(f, signs, address, pda),
        ),
{
    let signer = signs;
    lemma_key_prefixes();
    let writable = seq![','] + json::quoted("writable"@) + seq![':'];
    let signing = seq![','] + json::quoted("signer"@) + seq![':'];
    let optional = seq![','] + json::quoted("optional"@) + seq![':'];
    let relations = seq![','] + json::quoted("relations"@) + seq![':'];
    lemma_flag(f.writable, ",\"writable\":true"@, writable);
    lemma_flag(signer, ",\"signer\":true"@, signing);
    lemma_flag(f.is_optional, ",\"optional\":true"@, optional);
    lemma_relations(f.relations@, relations);
    let e0 = seq![("name"@, in_quotes(f.name@))];
    let e1 = e0 + optional_entry("writable"@, flag_value(f.writable));
    let e2 = e1 + optional_entry("signer"@, flag_value(signer));
    let e3 = e2 + optional_entry("address"@, address);
    let e4 = e3 + optional_entry("optional"@, flag_value(f.is_optional));
    let e5 = e4 + optional_entry("relations"@, relations_as_they_are(f.relations@));
    let e6 = e5 + optional_entry("docs"@, docs_value(f.docs@));
    lemma_entries_add(e0, "writable"@, flag_value(f.writable), writable);
    lemma_entries_add(e1, "signer"@, flag_value(signer), signing);
    lemma_entries_add(e2, "address"@, address, ",\"address\":"@);
    lemma_entries_add(e3, "optional"@, flag_value(f.is_optional), optional);
    lemma_entries_add(e4, "relations"@, relations_as_they_are(f.relations@), relations);
    lemma_entries_add(e5, "docs"@, docs_value(f.docs@), ",\"docs\":"@);
    lemma_entries_add(e6, "pda"@, pda, ",\"pda\":"@);
    assert(accounts::docs_text(f.docs@) == optional_text(",\"docs\":"@, docs_value(f.docs@)));
    assert(json::entry_texts(e0) =~= seq![json::entry_text("name"@, in_quotes(f.name@))]);
    let first = json::joined(json::entry_texts(e0), ',');
    assert("{\"name\":\""@ + f.name@ + "\""@ =~= seq!['{'] + first);
    lemma_reassociate(
        seq!['{'],
        first,
        accounts::flag_text(f.writable, ",\"writable\":true"@),
        accounts::flag_text(signer, ",\"signer\":true"@),
        optional_text(",\"address\":"@, address),
        accounts::flag_text(f.is_optional, ",\"optional\":true"@),
        accounts::relations_text(f.relations@),
        accounts::docs_text(f.docs@),
        optional_text(",\"pda\":"@, pda),
    );
}

proof fn lemma_variables(f: AccountsJsonField, build: Build)
    ensures
        ({
            let vars = variables(accounts::let_steps(f), build);
            &&& vars["__addr_json"@] == address_text(accounts::address_source(f), build)
            &&& vars["__pda_json"@] == let_text(LetStep::Pda(accounts::pda_code(f)), build)
            &&& f.field_ty is Some ==> vars["__signer_json"@] == accounts::flag_text(
                account_signs(f, build),
                ",\"signer\":true"@,
            )
        }),
{
    reveal_strlit("__addr_json");
    reveal_strlit("__pda_json");
    reveal_strlit("__signer_json");
    assert("__addr_json"@[2] == 'a' && "__pda_json"@[2] == 'p' && "__signer_json"@[2] == 's');
    reveal_with_fuel(variables, 4);
}

proof fn lemma_member(prefix: Seq<char>, value: Seq<char>)
    ensures
        formats::formatted(seq![Piece::Text(prefix), Piece::Arg(value)]) == prefix + value,
        formats::formatted(seq![Piece::Arg(value)]) == value,
{
    reveal_with_fuel(formats::formatted, 3);
    assert(formats::formatted(seq![Piece::Text(prefix), Piece::Arg(value)]) =~= prefix + value);
    assert(formats::formatted(seq![Piece::Arg(value)]) =~= value);
}

proof fn lemma_address_text(f: AccountsJsonField, build: Build)
    ensures
        address_text(accounts::address_source(f), build) == optional_text(
            ",\"address\":"@,
            address_value(f, build),
        ),
        let_text(LetStep::Pda(accounts::pda_code(f)), build) == optional_text(
            ",\"pda\":"@,
            pda_value(f, build),
        ),
{
    match accounts::address_source(f) {
        AddressSource::Expr(expr) => {
            let shown = (build.shown)(expr);
            lemma_member(",\"address\":"@, shown);
            lemma_member(",\"address\":"@, (build.json_string)(shown));
        },
        AddressSource::Path(path) => lemma_member(",\"address\":"@, (build.json_string)(path)),
        AddressSource::Constant(ty) => {
            if let Some(a) = (build.address)(ty) {
                lemma_member(",\"address\":"@, (build.json_string)(a));
            }
        },
        AddressSource::Unknown => {},
    }
    if let Some(body) = accounts::pda_code(f) {
        lemma_member(",\"pda\":"@, (build.string)(body));
    }
}

proof fn lemma_field_text(f: AccountsJsonField, build: Build)
    requires
        f.nested_inner_ty is None,
    ensures
        field_text(f, build) == account_text(
            f,
            account_signs(f, build),
            address_value(f, build),
            pda_value(f, build),
        ),
{
    let vars = variables(accounts::let_steps(f), build);
    let pieces = accounts::entry_pieces(f, |arg: EntryArg| entry_arg_text(arg, vars));
    lemma_variables(f, build);
    lemma_address_text(f, build);
    reveal_with_fuel(formats::formatted, 12);
    assert(Seq::<char>::empty() + "{\"name\":\""@ =~= "{\"name\":\""@);
    assert(formats::formatted(pieces) =~= account_text(
        f,
        account_signs(f, build),
        address_value(f, build),
        pda_value(f, build),
    ));
}

/// The members are those with names and relations as they are, if these need no
/// escapes.
proof fn lemma_plain_entries(
    f: AccountsJsonField,
    signs: bool,
    address: Option<Seq<char>>,
    pda: Option<Seq<char>>,
)
    requires
        is_plain_text(f.name@),
        forall|i: int| 0 <= i < f.relations@.len() ==> is_plain_text((#[trigger] f.relations@[i])@),
    ensures
        account_entries(f, signs, address, pda) == entries_as_they_are(f, signs, address, pda),
{
    json::lemma_quoted_plain(f.name@);
    let raw = Seq::new(f.relations@.len(), |i: int| in_quotes(f.relations@[i]@));
    assert forall|i: int| 0 <= i < f.relations@.len() implies #[trigger] quoted_all(
        f.relations@,
    )[i] == raw[i] by {
        json::lemma_quoted_plain(f.relations@[i]@);
    }
    assert(quoted_all(f.relations@) =~= raw);
}

/// Whatever its name and its relations, an entry is put together from its
/// members, these being put between quotes as they are.
pub proof fn law_account_prints_its_members(f: AccountsJsonField, build: Build)
    requires
        f.nested_inner_ty is None,
    ensures
        field_text(f, build) == json::object_text(
            entries_as_they_are(
                f,
                account_signs(f, build),
                address_value(f, build),
                pda_value(f, build),
            ),
        ),
{
    lemma_field_text(f, build);
    lemma_account_text(
        f,
        account_signs(f, build),
        address_value(f, build),
        pda_value(f, build),
    );
}

/// An account entry is a JSON object with the name, and with each flag, list
/// and object that the account has, in a fixed order. Names and relations are
/// put between quotes as they are.
pub proof fn law_account_prints_as_an_object(f: AccountsJsonField, build: Build)
    requires
        f.nested_inner_ty is None,
        is_plain_text(f.name@),
        forall|i: int| 0 <= i < f.relations@.len() ==> is_plain_text((#[trigger] f.relations@[i])@),
    ensures
        field_text(f, build) == json::object_text(
            account_entries(
                f,
                account_signs(f, build),
                address_value(f, build),
                pda_value(f, build),
            ),
        ),
{
    law_account_prints_its_members(f, build);
    lemma_plain_entries(
        f,
        account_signs(f, build),
        address_value(f, build),
        pda_value(f, build),
    );
}

// ---------------------------------------------------------------------------
// The list
// ---------------------------------------------------------------------------

pub open spec fn field_texts(fields: Seq<AccountsJsonField>, build: Build) -> Seq<Seq<char>> {
    Seq::new(fields.len(), |i: int| field_text(fields[i], build))
}

/// What the body [`accounts::accounts_body`] makes of the parts.
pub open spec fn list_text(parts: Seq<Seq<char>>) -> Seq<char> {
    pushes::looped(true, "["@, parts) + seq![']']
}

/// What the function [`accounts::accounts_fn`] returns.
pub open spec fn accounts_text(fields: Seq<AccountsJsonField>, build: Build) -> Seq<char> {
    list_text(field_texts(fields, build))
}

proof fn lemma_list_text(parts: Seq<Seq<char>>)
    ensures
        list_text(parts) == json::array_text(nonempty(parts)),
{
    reveal_strlit("[");
    pushes::law_loop_joins_the_items(true, "["@, parts);
    assert("["@ =~= seq!['[']);
}

/// The account list is a JSON array of what the fields print, nested structs
/// without accounts being left out.
pub proof fn law_accounts_print_as_an_array(fields: Seq<AccountsJsonField>, build: Build)
    ensures
        accounts_text(fields, build) == json::array_text(nonempty(field_texts(fields, build))),
        (forall|i: int| 0 <= i < fields.len() ==> (#[trigger] fields[i]).nested_inner_ty is None)
            ==> accounts_text(fields, build) == json::array_text(field_texts(fields, build)),
{
    let texts = field_texts(fields, build);
    lemma_list_text(texts);
    if forall|i: int| 0 <= i < fields.len() ==> (#[trigger] fields[i]).nested_inner_ty is None {
        reveal_strlit("}");
        assert forall|i: int| 0 <= i < texts.len() implies (#[trigger] texts[i]).len() > 0 by {
            lemma_field_text(fields[i], build);
        }
        lemma_all_nonempty(texts);
    }
}

proof fn lemma_all_nonempty(texts: Seq<Seq<char>>)
    requires
        forall|i: int| 0 <= i < texts.len() ==> (#[trigger] texts[i]).len() > 0,
    ensures
        nonempty(texts) == texts,
    decreases texts.len(),
{
    if texts.len() > 0 {
        let front = texts.drop_last();
        assert forall|i: int| 0 <= i < front.len() implies (#[trigger] front[i]).len() > 0 by {
            assert(front[i] == texts[i]);
        }
        lemma_all_nonempty(front);
        assert(texts[texts.len() - 1].len() > 0);
    }
    assert(nonempty(texts) =~= texts);
}

proof fn lemma_nonempty_add(a: Seq<Seq<char>>, b: Seq<Seq<char>>)
    ensures
        nonempty(a + b) == nonempty(a) + nonempty(b),
    decreases b.len(),
{
    if b.len() == 0 {
        assert(a + b =~= a);
        assert(nonempty(a) + nonempty(b) =~= nonempty(a));
    } else {
        assert((a + b).drop_last() =~= a + b.drop_last());
        lemma_nonempty_add(a, b.drop_last());
        assert(nonempty(a + b) =~= nonempty(a) + nonempty(b));
    }
}

proof fn lemma_nonempty_parts(parts: Seq<Seq<char>>)
    ensures
        forall|i: int| 0 <= i < nonempty(parts).len() ==> (#[trigger] nonempty(parts)[i]).len() > 0,
    decreases parts.len(),
{
    if parts.len() > 0 {
        let front = nonempty(parts.drop_last());
        lemma_nonempty_parts(parts.drop_last());
        assert forall|i: int| 0 <= i < nonempty(parts).len() implies (#[trigger] nonempty(
            parts,
        )[i]).len() > 0 by {
            if i < front.len() {
                assert(front[i].len() > 0);
            }
        }
    }
}

proof fn lemma_joined_add(a: Seq<Seq<char>>, b: Seq<Seq<char>>)
    requires
        a.len() > 0,
        b.len() > 0,
    ensures
        json::joined(a + b, ',') == json::joined(a, ',') + seq![','] + json::joined(b, ','),
    decreases b.len(),
{
    assert((a + b).drop_last() =~= a + b.drop_last());
    if b.len() == 1 {
        assert(a + b.drop_last() =~= a);
    } else {
        lemma_joined_add(a, b.drop_last());
        assert(json::joined(a + b, ',') =~= json::joined(a, ',') + seq![','] + json::joined(
            b,
            ',',
        ));
    }
}

/// One part that is itself a joined list can be replaced by the list.
proof fn lemma_joined_flatten(a: Seq<Seq<char>>, b: Seq<Seq<char>>, c: Seq<Seq<char>>)
    requires
        b.len() > 0,
    ensures
        json::joined(a + seq![json::joined(b, ',')] + c, ',') == json::joined(a + b + c, ','),
{
    let one = seq![json::joined(b, ',')];
    assert(json::joined(one, ',') == json::joined(b, ','));
    if a.len() > 0 {
        lemma_joined_add(a, one);
        lemma_joined_add(a, b);
    } else {
        assert(a + one =~= one);
        assert(a + b =~= b);
    }
    if c.len() > 0 {
        lemma_joined_add(a + one, c);
        lemma_joined_add(a + b, c);
    } else {
        assert(a + one + c =~= a + one);
        assert(a + b + c =~= a + b);
    }
}

proof fn lemma_joined_len(parts: Seq<Seq<char>>)
    requires
        parts.len() > 0,
        parts[0].len() > 0,
    ensures
        json::joined(parts, ',').len() > 0,
    decreases parts.len(),
{
    if parts.len() > 1 {
        lemma_joined_len(parts.drop_last());
    }
}

pub proof fn lemma_encode_add(a: Seq<char>, b: Seq<char>)
    ensures
        utf8::encode_utf8(a + b) == utf8::encode_utf8(a) + utf8::encode_utf8(b),
    decreases a.len(),
{
    if a.len() == 0 {
        assert(a + b =~= b);
        assert(utf8::encode_utf8(a) + utf8::encode_utf8(b) =~= utf8::encode_utf8(b));
    } else {
        assert((a + b).drop_first() =~= a.drop_first() + b);
        lemma_encode_add(a.drop_first(), b);
        assert(utf8::encode_utf8(a + b) =~= utf8::encode_utf8(a) + utf8::encode_utf8(b));
    }
}

/// Taking the brackets off an array leaves its items, commas between them.
pub proof fn law_unbracketing_leaves_the_items(items: Seq<Seq<char>>)
    ensures
        unbracketed(json::array_text(items)) == json::joined(items, ','),
{
    let inner = json::joined(items, ',');
    let whole = utf8::encode_utf8(json::array_text(items));
    let bytes = utf8::encode_utf8(inner);
    let tests = accounts::bracket_tests();
    utf8::is_ascii_chars_encode_utf8(seq!['[']);
    utf8::is_ascii_chars_encode_utf8(seq![']']);
    assert(utf8::encode_utf8(seq!['[']) =~= seq![91u8]) by {
        assert(seq!['['][0] as u8 == 91);
    }
    assert(utf8::encode_utf8(seq![']']) =~= seq![93u8]) by {
        assert(seq![']'][0] as u8 == 93);
    }
    lemma_encode_add(seq!['['] + inner, seq![']']);
    lemma_encode_add(seq!['['], inner);
    assert(whole =~= seq![91u8] + bytes + seq![93u8]);
    assert forall|i: int| 0 <= i < tests.len() implies byte_test_holds(
        #[trigger] tests[i],
        whole,
    ) by {}
    assert(whole.subrange(1, whole.len() - 1) =~= bytes);
    utf8::encode_utf8_decode_utf8(inner);
}

/// One part that is itself a list can be replaced by the items of the list.
proof fn lemma_list_flattens(
    before: Seq<Seq<char>>,
    inner: Seq<Seq<char>>,
    after: Seq<Seq<char>>,
)
    ensures
        list_text(before + seq![unbracketed(list_text(inner))] + after) == list_text(
            before + inner + after,
        ),
{
    let part = unbracketed(list_text(inner));
    let kept = nonempty(inner);
    lemma_list_text(inner);
    law_unbracketing_leaves_the_items(kept);
    lemma_nonempty_parts(inner);
    lemma_nonempty_add(before + seq![part], after);
    lemma_nonempty_add(before, seq![part]);
    lemma_nonempty_add(before + inner, after);
    lemma_nonempty_add(before, inner);
    assert(seq![part].drop_last() =~= Seq::empty());
    assert(nonempty(Seq::empty()) =~= Seq::empty());
    if kept.len() == 0 {
        assert(part =~= Seq::empty());
        assert(nonempty(seq![part]) =~= Seq::empty());
        assert(nonempty(before) + nonempty(seq![part]) =~= nonempty(before) + kept);
    } else {
        lemma_joined_len(kept);
        assert(nonempty(seq![part]) =~= seq![part]);
        lemma_joined_flatten(nonempty(before), kept, nonempty(after));
    }
    lemma_list_text(before + seq![part] + after);
    lemma_list_text(before + inner + after);
}

/// The accounts of a nested struct stand in the list in place of the field,
/// as if they were fields themselves.
pub proof fn law_nested_accounts_are_flattened(
    before: Seq<AccountsJsonField>,
    nested: AccountsJsonField,
    inner: Seq<AccountsJsonField>,
    after: Seq<AccountsJsonField>,
    build: Build,
)
    requires
        nested.nested_inner_ty matches Some(ty) && (build.accounts)(
            tokens::stream_tokens(ty.tokens),
        ) == accounts_text(inner, build),
    ensures
        accounts_text(before + seq![nested] + after, build) == accounts_text(
            before + inner + after,
            build,
        ),
{
    let head = field_texts(before, build);
    let items = field_texts(inner, build);
    let tail = field_texts(after, build);
    lemma_list_flattens(head, items, tail);
    assert(field_texts(before + seq![nested] + after, build) =~= head + seq![
        unbracketed(list_text(items)),
    ] + tail);
    assert(field_texts(before + inner + after, build) =~= head + items + tail);
}

} // verus!
