//! What the generated account lists evaluate to.

use crate::accounts::{self, AccountsJsonField, AddressSource, EntryArg, LetStep};
use crate::code::{self, Code, Data, Stmt, Test, Vars};
use crate::docs;
use crate::formats::{self, Piece};
use crate::joins;
use crate::json;
use crate::listing;
use crate::pushes;
use crate::setting::Build;
use crate::text;
use crate::tokens::{self, Delim, Token};
use vstd::prelude::*;
use vstd::string::*;
use vstd::utf8;

verus! {

// ---------------------------------------------------------------------------
// Calls of `format!`
// ---------------------------------------------------------------------------

spec fn prefixed(s: Seq<char>, data: Data) -> Data {
    match data {
        Data::Text(rest) => Data::Text(s + rest),
        _ => Data::Stuck,
    }
}

proof fn lemma_prefixed(a: Seq<char>, b: Seq<char>, data: Data)
    ensures
        prefixed(a, prefixed(b, data)) == prefixed(a + b, data),
        data is Text || data is Stuck ==> prefixed(Seq::empty(), data) == data,
{
    match data {
        Data::Text(rest) => {
            assert(a + (b + rest) =~= (a + b) + rest);
            assert(Seq::<char>::empty() + rest =~= rest);
        },
        _ => {},
    }
}

proof fn lemma_format_is_text(template: Seq<char>, args: Seq<Data>)
    ensures
        code::format_value(template, args) is Text || code::format_value(template, args) is Stuck,
    decreases template.len(),
{
}

proof fn lemma_format_doubled(s: Seq<char>, rest: Seq<char>, args: Seq<Data>)
    ensures
        code::format_value(formats::doubled(s) + rest, args) == prefixed(
            s,
            code::format_value(rest, args),
        ),
    decreases s.len(),
{
    let tail = code::format_value(rest, args);
    lemma_format_is_text(rest, args);
    if s.len() == 0 {
        assert(formats::doubled(s) + rest =~= rest);
        assert(s =~= Seq::empty());
        lemma_prefixed(Seq::empty(), Seq::empty(), tail);
    } else {
        let front = s.drop_last();
        let c = s.last();
        let last = if c == '{' || c == '}' {
            seq![c, c]
        } else {
            seq![c]
        };
        let more = last + rest;
        assert(formats::doubled(s) + rest =~= formats::doubled(front) + more);
        lemma_format_doubled(front, more, args);
        assert(more.skip(last.len() as int) =~= rest);
        assert(code::format_value(more, args) == prefixed(seq![c], tail));
        lemma_prefixed(front, seq![c], tail);
        assert(front + seq![c] =~= s);
    }
}

spec fn piece_data(pieces: Seq<Piece<Seq<char>>>) -> Seq<Data>
    decreases pieces.len(),
{
    if pieces.len() == 0 {
        Seq::empty()
    } else {
        match pieces.last() {
            Piece::Text(_) => piece_data(pieces.drop_last()),
            Piece::Arg(arg) => piece_data(pieces.drop_last()).push(Data::Text(arg)),
        }
    }
}

proof fn lemma_format_pieces(
    pieces: Seq<Piece<Seq<char>>>,
    rest: Seq<char>,
    args: Seq<Data>,
)
    ensures
        code::format_value(formats::template(pieces) + rest, piece_data(pieces) + args) == prefixed(
            formats::formatted(pieces),
            code::format_value(rest, args),
        ),
    decreases pieces.len(),
{
    let tail = code::format_value(rest, args);
    lemma_format_is_text(rest, args);
    if pieces.len() == 0 {
        assert(formats::template(pieces) + rest =~= rest);
        assert(piece_data(pieces) + args =~= args);
        lemma_prefixed(Seq::empty(), Seq::empty(), tail);
    } else {
        let front = pieces.drop_last();
        match pieces.last() {
            Piece::Text(s) => {
                let more = formats::doubled(s) + rest;
                assert(formats::template(pieces) + rest =~= formats::template(front) + more);
                lemma_format_pieces(front, more, args);
                lemma_format_doubled(s, rest, args);
                lemma_prefixed(formats::formatted(front), s, tail);
            },
            Piece::Arg(arg) => {
                let more = seq!['{', '}'] + rest;
                let more_args = seq![Data::Text(arg)] + args;
                assert(formats::template(pieces) + rest =~= formats::template(front) + more);
                assert(piece_data(pieces) + args =~= piece_data(front) + more_args);
                lemma_format_pieces(front, more, more_args);
                assert(more.skip(2) =~= rest);
                assert(more_args.drop_first() =~= args);
                assert(code::format_value(more, more_args) == prefixed(arg, tail));
                lemma_prefixed(formats::formatted(front), arg, tail);
            },
        }
    }
}

/// The arguments are written as the pieces say, and have the values that they
/// say.
spec fn are_codes(
    args: Seq<Code>,
    written: Seq<Piece<Seq<Token>>>,
    meant: Seq<Piece<Seq<char>>>,
    vars: Vars,
    build: Build,
) -> bool
    decreases written.len(),
{
    &&& written.len() == meant.len()
    &&& if written.len() == 0 {
        args.len() == 0
    } else {
        match (written.last(), meant.last()) {
            (Piece::Text(s), Piece::Text(t)) => s == t && are_codes(
                args,
                written.drop_last(),
                meant.drop_last(),
                vars,
                build,
            ),
            (Piece::Arg(ts), Piece::Arg(t)) => args.len() > 0 && code::code_tokens(args.last())
                == ts && code::value(args.last(), vars, build) == Data::Text(t) && are_codes(
                args.drop_last(),
                written.drop_last(),
                meant.drop_last(),
                vars,
                build,
            ),
            _ => false,
        }
    }
}

proof fn lemma_are_codes(
    args: Seq<Code>,
    written: Seq<Piece<Seq<Token>>>,
    meant: Seq<Piece<Seq<char>>>,
    vars: Vars,
    build: Build,
)
    requires
        are_codes(args, written, meant, vars, build),
    ensures
        formats::template(written) == formats::template(meant),
        formats::arg_list(written) == code::args_tokens(args),
        code::values(args, vars, build) == piece_data(meant),
    decreases written.len(),
{
    if written.len() > 0 {
        match written.last() {
            Piece::Text(_) => {
                lemma_are_codes(args, written.drop_last(), meant.drop_last(), vars, build);
            },
            Piece::Arg(_) => {
                lemma_are_codes(
                    args.drop_last(),
                    written.drop_last(),
                    meant.drop_last(),
                    vars,
                    build,
                );
            },
        }
    }
}

proof fn lemma_format_code(
    args: Seq<Code>,
    written: Seq<Piece<Seq<Token>>>,
    meant: Seq<Piece<Seq<char>>>,
    trailing: bool,
    vars: Vars,
    build: Build,
)
    requires
        are_codes(args, written, meant, vars, build),
    ensures
        ({
            let c = Code::Format(formats::template(meant), args, trailing);
            &&& code::code_tokens(c) == formats::format_expr(written, trailing)
            &&& code::value(c, vars, build) == Data::Text(formats::formatted(meant))
        }),
{
    lemma_are_codes(args, written, meant, vars, build);
    lemma_format_pieces(meant, Seq::empty(), Seq::empty());
    assert(formats::template(meant) + Seq::empty() =~= formats::template(meant));
    assert(piece_data(meant) + Seq::empty() =~= piece_data(meant));
    assert(formats::formatted(meant) + Seq::<char>::empty() =~= formats::formatted(meant));
}

// ---------------------------------------------------------------------------
// Bindings
// ---------------------------------------------------------------------------

spec fn string_type() -> Seq<Token> {
    tokens::words("anchor_lang :: __alloc :: string :: String"@)
}

/// The names of the variables are different.
proof fn lemma_names()
    ensures
        "__addr_json"@ != "__pda_json"@,
        "__addr_json"@ != "__signer_json"@,
        "__pda_json"@ != "__signer_json"@,
        "__signer"@ != "__signer_json"@,
        "__signer"@ != "__addr_json"@,
        "__signer"@ != "__pda_json"@,
        "__addr"@ != "__signer_json"@,
        "__addr"@ != "__addr_json"@,
        "__addr"@ != "__pda_json"@,
        "__addr_string"@ != "__signer_json"@,
        "__addr_string"@ != "__addr_json"@,
        "__addr_string"@ != "__pda_json"@,
{
    reveal_strlit("__addr_json");
    reveal_strlit("__pda_json");
    reveal_strlit("__signer_json");
    reveal_strlit("__signer");
    reveal_strlit("__addr");
    reveal_strlit("__addr_string");
    assert("__addr_json"@[2] == 'a' && "__pda_json"@[2] == 'p' && "__signer_json"@[2] == 's'
        && "__signer"@[2] == 's' && "__addr"@[2] == 'a' && "__addr_string"@[2] == 'a'
        && "__addr_string"@[7] == 's' && "__addr_json"@[7] == 'j');
    assert("__signer"@.len() == 8 && "__signer_json"@.len() == 13 && "__addr"@.len() == 6
        && "__addr_json"@.len() == 11);
}

spec fn boxed(c: Code) -> Box<Code> {
    Box::new(c)
}

/// `anchor_lang::__alloc::format!(",\"address\":{}", ..__idl_json_string(c),)`
spec fn address_code(c: Code) -> Code {
    Code::Format(
        formats::template(accounts::address_pieces(Seq::<char>::empty())),
        seq![Code::JsonString(boxed(c))],
        true,
    )
}

proof fn lemma_address_code(c: Code, s: Seq<char>, vars: Vars, build: Build)
    requires
        code::value(c, vars, build) == Data::Text(s),
    ensures
        code::code_tokens(address_code(c)) == accounts::address_format(code::code_tokens(c)),
        code::value(address_code(c), vars, build) == Data::Text(
            formats::formatted(accounts::address_pieces((build.json_string)(s))),
        ),
{
    let arg = Code::JsonString(boxed(c));
    let written = accounts::address_pieces(accounts::json_string_call(code::code_tokens(c)));
    let meant = accounts::address_pieces((build.json_string)(s));
    assert(code::code_tokens(arg) == accounts::json_string_call(code::code_tokens(c)));
    assert(code::value(arg, vars, build) == Data::Text((build.json_string)(s)));
    reveal_with_fuel(are_codes, 3);
    assert(are_codes(seq![arg], written, meant, vars, build));
    lemma_format_code(seq![arg], written, meant, true, vars, build);
    reveal_with_fuel(formats::template, 3);
    assert(formats::template(meant) == formats::template(
        accounts::address_pieces(Seq::<char>::empty()),
    ));
}

spec fn step_stmts(step: LetStep) -> Seq<Stmt> {
    match step {
        LetStep::Signer(ty, init_signer) => seq![
            Stmt::Let(
                false,
                "__signer"@,
                None,
                Code::Or(boxed(Code::IsSigner(ty)), init_signer),
            ),
            Stmt::Let(
                false,
                "__signer_json"@,
                Some(tokens::words("& str"@)),
                Code::If(
                    "__signer"@,
                    boxed(Code::Str(accounts::flag_text(true, ",\"signer\":true"@))),
                    boxed(Code::Str(accounts::flag_text(false, ",\"signer\":true"@))),
                ),
            ),
        ],
        LetStep::Address(AddressSource::Expr(expr)) => seq![
            Stmt::Let(
                false,
                "__addr"@,
                Some(tokens::words("anchor_lang :: Address"@)),
                Code::Into(expr),
            ),
            Stmt::Let(
                false,
                "__addr_string"@,
                None,
                Code::Format(
                    formats::template(accounts::shown_pieces(Seq::<char>::empty())),
                    seq![Code::Var("__addr"@)],
                    false,
                ),
            ),
            Stmt::Let(
                false,
                "__addr_json"@,
                Some(string_type()),
                address_code(Code::Borrow(boxed(Code::Var("__addr_string"@)))),
            ),
        ],
        LetStep::Address(AddressSource::Path(path)) => seq![
            Stmt::Let(
                false,
                "__addr_json"@,
                Some(string_type()),
                address_code(Code::Str(path)),
            ),
        ],
        LetStep::Address(AddressSource::Constant(ty)) => seq![
            Stmt::Let(false, "__addr"@, None, Code::TypeAddress(ty)),
            Stmt::Let(
                false,
                "__addr_json"@,
                Some(string_type()),
                Code::Match(
                    "__addr"@,
                    "a"@,
                    boxed(address_code(Code::Var("a"@))),
                    boxed(Code::EmptyString),
                ),
            ),
        ],
        LetStep::Address(AddressSource::Unknown) => seq![
            Stmt::Let(false, "__addr_json"@, Some(string_type()), Code::EmptyString),
        ],
        LetStep::Pda(Some(body)) => seq![
            Stmt::Let(
                false,
                "__pda_json"@,
                Some(string_type()),
                Code::Block(
                    seq![Stmt::Let(false, "__body"@, Some(string_type()), Code::Foreign(body))],
                    boxed(
                        Code::Format(
                            formats::template(accounts::pda_pieces(Seq::<char>::empty())),
                            seq![Code::Var("__body"@)],
                            false,
                        ),
                    ),
                ),
            ),
        ],
        LetStep::Pda(None) => seq![
            Stmt::Let(false, "__pda_json"@, Some(string_type()), Code::EmptyString),
        ],
    }
}

/// The step binds its variable, and leaves those of the other steps alone.
spec fn step_done(step: LetStep, before: Vars, after: Vars, build: Build) -> bool {
    &&& code::variable(after, accounts::let_var(step)) == Data::Text(
        listing::let_text(step, build),
    )
    &&& "__signer_json"@ != accounts::let_var(step) ==> code::variable(after, "__signer_json"@)
        == code::variable(before, "__signer_json"@)
    &&& "__addr_json"@ != accounts::let_var(step) ==> code::variable(after, "__addr_json"@)
        == code::variable(before, "__addr_json"@)
    &&& "__pda_json"@ != accounts::let_var(step) ==> code::variable(after, "__pda_json"@)
        == code::variable(before, "__pda_json"@)
}

proof fn lemma_one(name: Seq<char>, ty: Option<Seq<Token>>, c: Code, vars: Vars, build: Build)
    ensures
        ({
            let stmt = Stmt::Let(false, name, ty, c);
            &&& code::after(seq![stmt], vars, build) == (
                vars.insert(name, code::value(c, vars, build)),
                false,
            )
            &&& code::stmts_tokens(seq![stmt]) == code::stmt_tokens(stmt)
        }),
{
    let stmt = Stmt::Let(false, name, ty, c);
    code::lemma_after_one(stmt, vars, build);
    code::lemma_stmts_tokens_one(stmt);
}

#[verifier::rlimit(60)]
proof fn lemma_signer_step(ty: Seq<Token>, init_signer: bool, vars: Vars, build: Build)
    ensures
        ({
            let step = LetStep::Signer(ty, init_signer);
            let end = code::after(step_stmts(step), vars, build);
            &&& code::stmts_tokens(step_stmts(step)) == accounts::let_tokens(step)
            &&& !end.1
            &&& step_done(step, vars, end.0, build)
        }),
{
    lemma_names();
    let step = LetStep::Signer(ty, init_signer);
    let all = step_stmts(step);
    let flag = Code::Or(boxed(Code::IsSigner(ty)), init_signer);
    let yes = Code::Str(accounts::flag_text(true, ",\"signer\":true"@));
    let no = Code::Str(accounts::flag_text(false, ",\"signer\":true"@));
    let choice = Code::If("__signer"@, boxed(yes), boxed(no));
    let signs = (build.signs)(ty) || init_signer;
    assert(code::value(Code::IsSigner(ty), vars, build) == Data::Flag((build.signs)(ty)));
    assert(code::value(flag, vars, build) == Data::Flag(signs));
    let v1 = vars.insert("__signer"@, Data::Flag(signs));
    assert(code::value(yes, v1, build) == Data::Text(
        accounts::flag_text(true, ",\"signer\":true"@),
    ));
    assert(code::value(no, v1, build) == Data::Text(
        accounts::flag_text(false, ",\"signer\":true"@),
    ));
    assert(code::value(choice, v1, build) == Data::Text(
        accounts::flag_text(signs, ",\"signer\":true"@),
    ));
    lemma_one("__signer"@, None, flag, vars, build);
    assert(all =~= seq![all[0]].push(all[1]));
    code::lemma_push(seq![all[0]], all[1], vars, build);
    assert(code::code_tokens(yes) == seq![
        Token::Str(accounts::flag_text(true, ",\"signer\":true"@)),
    ]);
    assert(code::code_tokens(no) == seq![
        Token::Str(accounts::flag_text(false, ",\"signer\":true"@)),
    ]);
    assert(code::code_tokens(Code::IsSigner(ty)) == accounts::account_type_const(
        ty,
        "__IDL_IS_SIGNER"@,
    ));
    assert(code::stmts_tokens(all) =~= accounts::let_tokens(step));
}

#[verifier::rlimit(60)]
proof fn lemma_expr_step(expr: Seq<Token>, vars: Vars, build: Build)
    ensures
        ({
            let step = LetStep::Address(AddressSource::Expr(expr));
            let end = code::after(step_stmts(step), vars, build);
            &&& code::stmts_tokens(step_stmts(step)) == accounts::let_tokens(step)
            &&& !end.1
            &&& step_done(step, vars, end.0, build)
        }),
{
    lemma_names();
    let step = LetStep::Address(AddressSource::Expr(expr));
    let all = step_stmts(step);
    let shown = (build.shown)(expr);
    let v1 = vars.insert("__addr"@, Data::Text(shown));
    let addr = Code::Var("__addr"@);
    let written = accounts::shown_pieces(tokens::words("__addr"@));
    let meant = accounts::shown_pieces(shown);
    assert(code::code_tokens(addr) == tokens::words("__addr"@));
    assert(code::value(addr, v1, build) == Data::Text(shown));
    reveal_with_fuel(are_codes, 2);
    assert(are_codes(seq![addr], written, meant, v1, build));
    lemma_format_code(seq![addr], written, meant, false, v1, build);
    assert(formats::template(meant) == formats::template(
        accounts::shown_pieces(Seq::<char>::empty()),
    )) by {
        reveal_with_fuel(formats::template, 2);
    }
    let format = Code::Format(formats::template(meant), seq![addr], false);
    let printed = formats::formatted(meant);
    let v2 = v1.insert("__addr_string"@, Data::Text(printed));
    let var = Code::Var("__addr_string"@);
    let borrow = Code::Borrow(boxed(var));
    assert(code::value(var, v2, build) == Data::Text(printed));
    assert(code::value(borrow, v2, build) == Data::Text(printed));
    assert(code::code_tokens(var) == tokens::words("__addr_string"@));
    assert(code::code_tokens(borrow) == tokens::words("&"@) + tokens::words("__addr_string"@));
    lemma_address_code(borrow, printed, v2, build);
    assert(code::value(Code::Into(expr), vars, build) == Data::Text(shown));
    lemma_one(
        "__addr"@,
        Some(tokens::words("anchor_lang :: Address"@)),
        Code::Into(expr),
        vars,
        build,
    );
    assert(all =~= seq![all[0]].push(all[1]).push(all[2]));
    code::lemma_push(seq![all[0]], all[1], vars, build);
    code::lemma_push(seq![all[0]].push(all[1]), all[2], vars, build);
    assert(code::code_tokens(Code::Into(expr)) == tokens::words(
        ":: core :: convert :: Into :: into"@,
    ) + tokens::group(Delim::Paren, expr));
    assert(code::stmts_tokens(all) =~= accounts::let_tokens(step));
}

#[verifier::rlimit(60)]
proof fn lemma_constant_step(ty: Seq<Token>, vars: Vars, build: Build)
    ensures
        ({
            let step = LetStep::Address(AddressSource::Constant(ty));
            let end = code::after(step_stmts(step), vars, build);
            &&& code::stmts_tokens(step_stmts(step)) == accounts::let_tokens(step)
            &&& !end.1
            &&& step_done(step, vars, end.0, build)
        }),
{
    lemma_names();
    let step = LetStep::Address(AddressSource::Constant(ty));
    let all = step_stmts(step);
    let address = (build.address)(ty);
    let v1 = vars.insert("__addr"@, Data::Maybe(address));
    let bound = Code::Var("a"@);
    let some = address_code(bound);
    let choice = Code::Match("__addr"@, "a"@, boxed(some), boxed(Code::EmptyString));
    assert(code::value(Code::TypeAddress(ty), vars, build) == Data::Maybe(address));
    let text = match address {
        Some(a) => a,
        None => Seq::empty(),
    };
    let v2 = v1.insert("a"@, Data::Text(text));
    assert(code::value(bound, v2, build) == Data::Text(text));
    lemma_address_code(bound, text, v2, build);
    assert(code::value(Code::EmptyString, v1, build) == Data::Text(Seq::empty()));
    assert(code::value(choice, v1, build) == Data::Text(listing::let_text(step, build)));
    lemma_one("__addr"@, None, Code::TypeAddress(ty), vars, build);
    assert(all =~= seq![all[0]].push(all[1]));
    code::lemma_push(seq![all[0]], all[1], vars, build);
    assert(code::code_tokens(bound) == tokens::words("a"@));
    assert(code::code_tokens(Code::EmptyString) == accounts::empty_string());
    assert(code::code_tokens(Code::TypeAddress(ty)) == accounts::account_type_const(
        ty,
        "__IDL_ADDRESS"@,
    ));
    assert(code::stmts_tokens(all) =~= accounts::let_tokens(step));
}

proof fn lemma_pda_step(body: Seq<Token>, vars: Vars, build: Build)
    ensures
        ({
            let step = LetStep::Pda(Some(body));
            let end = code::after(step_stmts(step), vars, build);
            &&& code::stmts_tokens(step_stmts(step)) == accounts::let_tokens(step)
            &&& !end.1
            &&& step_done(step, vars, end.0, build)
        }),
{
    lemma_names();
    let step = LetStep::Pda(Some(body));
    let all = step_stmts(step);
    let text = (build.string)(body);
    let v1 = vars.insert("__body"@, Data::Text(text));
    let var = Code::Var("__body"@);
    let written = accounts::pda_pieces(tokens::words("__body"@));
    let meant = accounts::pda_pieces(text);
    assert(code::code_tokens(var) == tokens::words("__body"@));
    assert(code::value(var, v1, build) == Data::Text(text));
    reveal_with_fuel(are_codes, 3);
    assert(are_codes(seq![var], written, meant, v1, build));
    lemma_format_code(seq![var], written, meant, false, v1, build);
    assert(formats::template(meant) == formats::template(
        accounts::pda_pieces(Seq::<char>::empty()),
    )) by {
        reveal_with_fuel(formats::template, 3);
    }
    let format = Code::Format(formats::template(meant), seq![var], false);
    let inner = seq![Stmt::Let(false, "__body"@, Some(string_type()), Code::Foreign(body))];
    let block = Code::Block(inner, boxed(format));
    assert(code::value(Code::Foreign(body), vars, build) == Data::Text(text));
    lemma_one("__body"@, Some(string_type()), Code::Foreign(body), vars, build);
    assert(code::value(block, vars, build) == Data::Text(listing::let_text(step, build)));
    lemma_one("__pda_json"@, Some(string_type()), block, vars, build);
    assert(code::code_tokens(Code::Foreign(body)) == body);
    assert(code::stmts_tokens(inner) =~= accounts::let_typed("__body"@, body));
    assert(code::stmts_tokens(all) =~= accounts::let_tokens(step));
}

proof fn lemma_step(step: LetStep, vars: Vars, build: Build)
    ensures
        code::stmts_tokens(step_stmts(step)) == accounts::let_tokens(step),
        !code::after(step_stmts(step), vars, build).1,
        step_done(step, vars, code::after(step_stmts(step), vars, build).0, build),
{
    lemma_names();
    match step {
        LetStep::Signer(ty, init_signer) => lemma_signer_step(ty, init_signer, vars, build),
        LetStep::Address(AddressSource::Expr(expr)) => lemma_expr_step(expr, vars, build),
        LetStep::Address(AddressSource::Path(path)) => {
            let literal = Code::Str(path);
            assert(code::value(literal, vars, build) == Data::Text(path));
            assert(code::code_tokens(literal) == seq![Token::Str(path)]);
            lemma_address_code(literal, path, vars, build);
            lemma_one("__addr_json"@, Some(string_type()), address_code(literal), vars, build);
            assert(code::stmts_tokens(step_stmts(step)) =~= accounts::let_tokens(step));
        },
        LetStep::Address(AddressSource::Constant(ty)) => lemma_constant_step(ty, vars, build),
        LetStep::Address(AddressSource::Unknown) => {
            lemma_one("__addr_json"@, Some(string_type()), Code::EmptyString, vars, build);
            assert(code::value(Code::EmptyString, vars, build) == Data::Text(Seq::empty()));
            assert(code::code_tokens(Code::EmptyString) == accounts::empty_string());
            assert(code::stmts_tokens(step_stmts(step)) =~= accounts::let_tokens(step));
        },
        LetStep::Pda(Some(body)) => lemma_pda_step(body, vars, build),
        LetStep::Pda(None) => {
            lemma_one("__pda_json"@, Some(string_type()), Code::EmptyString, vars, build);
            assert(code::value(Code::EmptyString, vars, build) == Data::Text(Seq::empty()));
            assert(code::code_tokens(Code::EmptyString) == accounts::empty_string());
            assert(code::stmts_tokens(step_stmts(step)) =~= accounts::let_tokens(step));
        },
    }
}

// ---------------------------------------------------------------------------
// One entry
// ---------------------------------------------------------------------------

spec fn steps_stmts(steps: Seq<LetStep>) -> Seq<Stmt>
    decreases steps.len(),
{
    if steps.len() == 0 {
        Seq::empty()
    } else {
        steps_stmts(steps.drop_last()) + step_stmts(steps.last())
    }
}

/// The variable has the text that the bindings give it, if they do.
spec fn bound_as(vars: Vars, texts: Map<Seq<char>, Seq<char>>, name: Seq<char>) -> bool {
    texts.dom().contains(name) ==> code::variable(vars, name) == Data::Text(texts[name])
}

proof fn lemma_steps(steps: Seq<LetStep>, build: Build)
    ensures
        ({
            let end = code::after(steps_stmts(steps), Map::empty(), build);
            let texts = listing::variables(steps, build);
            &&& code::stmts_tokens(steps_stmts(steps)) == accounts::lets_tokens(steps)
            &&& !end.1
            &&& bound_as(end.0, texts, "__signer_json"@)
            &&& bound_as(end.0, texts, "__addr_json"@)
            &&& bound_as(end.0, texts, "__pda_json"@)
        }),
    decreases steps.len(),
{
    if steps.len() > 0 {
        let front = steps.drop_last();
        let last = steps.last();
        lemma_names();
        lemma_steps(front, build);
        let before = code::after(steps_stmts(front), Map::empty(), build).0;
        lemma_step(last, before, build);
        code::lemma_after_add(steps_stmts(front), step_stmts(last), Map::empty(), build);
        code::lemma_stmts_tokens_add(steps_stmts(front), step_stmts(last));
    }
}

spec fn arg_code(arg: EntryArg) -> Code {
    match arg {
        EntryArg::Literal(s) => Code::Str(s),
        EntryArg::Variable(name) => Code::Var(name),
    }
}

spec fn entry_codes(f: AccountsJsonField) -> Seq<Code> {
    seq![
        arg_code(EntryArg::Literal(f.name@)),
        arg_code(EntryArg::Literal(accounts::flag_text(f.writable, ",\"writable\":true"@))),
        arg_code(accounts::signer_arg(f)),
        arg_code(EntryArg::Variable("__addr_json"@)),
        arg_code(EntryArg::Literal(accounts::flag_text(f.is_optional, ",\"optional\":true"@))),
        arg_code(EntryArg::Literal(accounts::relations_text(f.relations@))),
        arg_code(EntryArg::Literal(accounts::docs_text(f.docs@))),
        arg_code(EntryArg::Variable("__pda_json"@)),
    ]
}

proof fn lemma_arg_code(arg: EntryArg, texts: Map<Seq<char>, Seq<char>>, vars: Vars, build: Build)
    requires
        arg matches EntryArg::Variable(name) ==> texts.dom().contains(name) && bound_as(
            vars,
            texts,
            name,
        ),
    ensures
        code::code_tokens(arg_code(arg)) == accounts::entry_arg_tokens(arg),
        code::value(arg_code(arg), vars, build) == Data::Text(listing::entry_arg_text(arg, texts)),
{
}

#[verifier::rlimit(60)]
proof fn lemma_entry_format(
    f: AccountsJsonField,
    texts: Map<Seq<char>, Seq<char>>,
    vars: Vars,
    build: Build,
)
    requires
        accounts::signer_arg(f) matches EntryArg::Variable(name) ==> texts.dom().contains(name)
            && bound_as(vars, texts, name),
        texts.dom().contains("__addr_json"@),
        bound_as(vars, texts, "__addr_json"@),
        texts.dom().contains("__pda_json"@),
        bound_as(vars, texts, "__pda_json"@),
    ensures
        ({
            let written = accounts::entry_pieces(f, |arg: EntryArg| accounts::entry_arg_tokens(arg));
            let meant = accounts::entry_pieces(
                f,
                |arg: EntryArg| listing::entry_arg_text(arg, texts),
            );
            are_codes(entry_codes(f), written, meant, vars, build)
        }),
{
    lemma_arg_code(EntryArg::Literal(f.name@), texts, vars, build);
    lemma_arg_code(
        EntryArg::Literal(accounts::flag_text(f.writable, ",\"writable\":true"@)),
        texts,
        vars,
        build,
    );
    lemma_arg_code(accounts::signer_arg(f), texts, vars, build);
    lemma_arg_code(EntryArg::Variable("__addr_json"@), texts, vars, build);
    lemma_arg_code(
        EntryArg::Literal(accounts::flag_text(f.is_optional, ",\"optional\":true"@)),
        texts,
        vars,
        build,
    );
    lemma_arg_code(EntryArg::Literal(accounts::relations_text(f.relations@)), texts, vars, build);
    lemma_arg_code(EntryArg::Literal(accounts::docs_text(f.docs@)), texts, vars, build);
    lemma_arg_code(EntryArg::Variable("__pda_json"@), texts, vars, build);
    reveal_with_fuel(are_codes, 12);
}

spec fn entry_code(f: AccountsJsonField) -> Code {
    Code::Block(
        steps_stmts(accounts::let_steps(f)),
        boxed(
            Code::Format(
                formats::template(
                    accounts::entry_pieces(f, |arg: EntryArg| Seq::<char>::empty()),
                ),
                entry_codes(f),
                true,
            ),
        ),
    )
}

#[verifier::rlimit(60)]
proof fn lemma_entry_code(f: AccountsJsonField, build: Build)
    requires
        f.nested_inner_ty is None,
    ensures
        code::code_tokens(entry_code(f)) == accounts::field_part(f),
        code::value(entry_code(f), Map::empty(), build) == Data::Text(
            listing::field_text(f, build),
        ),
{
    let steps = accounts::let_steps(f);
    let texts = listing::variables(steps, build);
    let vars = code::after(steps_stmts(steps), Map::empty(), build).0;
    let written = accounts::entry_pieces(f, |arg: EntryArg| accounts::entry_arg_tokens(arg));
    let meant = accounts::entry_pieces(f, |arg: EntryArg| listing::entry_arg_text(arg, texts));
    let bare = accounts::entry_pieces(f, |arg: EntryArg| Seq::<char>::empty());
    lemma_steps(steps, build);
    lemma_names();
    assert(texts.dom().contains("__addr_json"@) && texts.dom().contains("__pda_json"@) && (
    f.field_ty is Some ==> texts.dom().contains("__signer_json"@))) by {
        reveal_with_fuel(listing::variables, 4);
    }
    lemma_entry_format(f, texts, vars, build);
    lemma_format_code(entry_codes(f), written, meant, true, vars, build);
    accounts::lemma_entry_template(f, |arg: EntryArg| listing::entry_arg_text(arg, texts));
    accounts::lemma_entry_template(f, |arg: EntryArg| Seq::<char>::empty());
    assert(formats::template(meant) == formats::template(bare));
}

spec fn nested_tests() -> Seq<Test> {
    seq![Test::AtLeast("__bytes"@, 2), Test::First("__bytes"@, 91), Test::Last("__bytes"@, 93)]
}

spec fn nested_code(ty: Seq<Token>) -> Code {
    Code::Block(
        seq![
            Stmt::Let(false, "__inner"@, None, Code::AccountsOf(ty)),
            Stmt::Let(false, "__bytes"@, None, Code::AsBytes("__inner"@)),
        ],
        boxed(
            Code::IfAll(
                nested_tests(),
                boxed(Code::Slice("__inner"@, 1, 1)),
                boxed(Code::Var("__inner"@)),
            ),
        ),
    )
}

#[verifier::rlimit(60)]
proof fn lemma_nested_tokens(ty: Seq<Token>)
    ensures
        code::code_tokens(nested_code(ty)) == accounts::nested_part(ty),
{
    let first = Stmt::Let(false, "__inner"@, None, Code::AccountsOf(ty));
    let second = Stmt::Let(false, "__bytes"@, None, Code::AsBytes("__inner"@));
    let slice = Code::Slice("__inner"@, 1, 1);
    let var = Code::Var("__inner"@);
    let choice = Code::IfAll(nested_tests(), boxed(slice), boxed(var));
    let tests = nested_tests();
    let byte_tests = accounts::bracket_tests();
    assert(code::tests_tokens(tests) == accounts::byte_tests_tokens(byte_tests)) by {
        reveal_with_fuel(code::tests_tokens, 3);
        reveal_with_fuel(accounts::byte_tests_tokens, 3);
        assert(code::test_tokens(tests[0]) == accounts::byte_test_tokens(byte_tests[0]));
        assert(code::test_tokens(tests[1]) == accounts::byte_test_tokens(byte_tests[1]));
        assert(code::test_tokens(tests[2]) == accounts::byte_test_tokens(byte_tests[2]));
    }
    assert(code::code_tokens(var) == tokens::words("__inner"@));
    let range = seq![Token::Number(1)] + tokens::words(".."@) + accounts::len_call("__inner"@)
        + tokens::words("-"@) + seq![Token::Number(1)];
    assert(code::code_tokens(slice) =~= tokens::words("__inner"@) + tokens::group(
        Delim::Bracket,
        range,
    ) + tokens::words(". to_string"@) + code::unit()) by {
        assert(range =~= seq![Token::Number(1)] + tokens::words(".."@) + tokens::words("__inner"@)
            + tokens::words(". len"@) + code::unit() + tokens::words("-"@) + seq![
            Token::Number(1),
        ]);
    }
    code::lemma_stmts_tokens_one(first);
    code::lemma_push(seq![first], second, Map::empty(), arbitrary());
    assert(seq![first, second] =~= seq![first].push(second));
    assert(code::code_tokens(Code::AccountsOf(ty)) == tokens::words("<"@) + ty + tokens::words(
        "> :: __idl_accounts"@,
    ) + code::unit());
    assert(code::code_tokens(Code::AsBytes("__inner"@)) == tokens::words("__inner"@)
        + tokens::words(". as_bytes"@) + code::unit());
    assert(code::code_tokens(choice) == tokens::words("if"@) + accounts::byte_tests_tokens(
        byte_tests,
    ) + tokens::group(Delim::Brace, code::code_tokens(slice)) + tokens::words("else"@)
        + tokens::group(Delim::Brace, tokens::words("__inner"@)));
    assert(code::code_tokens(nested_code(ty)) == tokens::group(
        Delim::Brace,
        code::stmts_tokens(seq![first, second]) + code::code_tokens(choice),
    ));
    assert(code::stmt_tokens(first) == accounts::let_stmt(
        "__inner"@,
        None,
        code::code_tokens(Code::AccountsOf(ty)),
    ));
    assert(code::stmt_tokens(second) == accounts::let_stmt(
        "__bytes"@,
        None,
        code::code_tokens(Code::AsBytes("__inner"@)),
    ));
}

proof fn lemma_nested_value(ty: Seq<Token>, build: Build)
    ensures
        code::value(nested_code(ty), Map::empty(), build) == Data::Text(
            listing::unbracketed((build.accounts)(ty)),
        ),
{
    reveal_strlit("__inner");
    reveal_strlit("__bytes");
    assert("__inner"@[2] == 'i' && "__bytes"@[2] == 'b');
    let s = (build.accounts)(ty);
    let bytes = utf8::encode_utf8(s);
    let first = Stmt::Let(false, "__inner"@, None, Code::AccountsOf(ty));
    let second = Stmt::Let(false, "__bytes"@, None, Code::AsBytes("__inner"@));
    let empty = Map::<Seq<char>, Data>::empty();
    let v1 = empty.insert("__inner"@, Data::Text(s));
    let v2 = v1.insert("__bytes"@, Data::Bytes(bytes));
    assert(code::value(Code::AccountsOf(ty), empty, build) == Data::Text(s));
    assert(code::value(Code::AsBytes("__inner"@), v1, build) == Data::Bytes(bytes));
    code::lemma_after_one(first, empty, build);
    code::lemma_push(seq![first], second, empty, build);
    assert(seq![first, second] =~= seq![first].push(second));
    assert(code::after(seq![first, second], empty, build) == (v2, false));
    let tests = nested_tests();
    let byte_tests = accounts::bracket_tests();
    let slice = Code::Slice("__inner"@, 1, 1);
    let var = Code::Var("__inner"@);
    let choice = Code::IfAll(tests, boxed(slice), boxed(var));
    assert(code::value(var, v2, build) == Data::Text(s));
    assert(code::test_holds(tests[0], v2) == (bytes.len() >= 2));
    assert(listing::byte_test_holds(byte_tests[0], bytes) == (bytes.len() >= 2));
    if bytes.len() >= 2 {
        assert(code::test_holds(tests[1], v2) == (bytes[0] == 91));
        assert(code::test_holds(tests[2], v2) == (bytes[bytes.len() - 1] == 93));
        assert(listing::byte_test_holds(byte_tests[1], bytes) == (bytes[0] == 91));
        assert(listing::byte_test_holds(byte_tests[2], bytes) == (bytes[bytes.len() - 1] == 93));
        assert(code::value(slice, v2, build) == Data::Text(
            utf8::decode_utf8(bytes.subrange(1, bytes.len() - 1)),
        ));
    }
    let all = bytes.len() >= 2 && bytes[0] == 91 && bytes[bytes.len() - 1] == 93;
    if all {
        assert forall|i: int| 0 <= i < tests.len() implies code::test_holds(
            #[trigger] tests[i],
            v2,
        ) by {}
        assert forall|i: int| 0 <= i < byte_tests.len() implies listing::byte_test_holds(
            #[trigger] byte_tests[i],
            bytes,
        ) by {}
        assert(code::value(choice, v2, build) == code::value(slice, v2, build));
    } else {
        assert(code::value(choice, v2, build) == code::value(var, v2, build));
    }
    assert(code::value(choice, v2, build) == Data::Text(listing::unbracketed(s)));
}

spec fn field_code(f: AccountsJsonField) -> Code {
    match f.nested_inner_ty {
        Some(inner) => nested_code(tokens::stream_tokens(inner.tokens)),
        None => entry_code(f),
    }
}

proof fn lemma_field_code(f: AccountsJsonField, build: Build)
    ensures
        code::code_tokens(field_code(f)) == accounts::field_part(f),
        code::value(field_code(f), Map::empty(), build) == Data::Text(
            listing::field_text(f, build),
        ),
{
    match f.nested_inner_ty {
        Some(inner) => {
            lemma_nested_tokens(tokens::stream_tokens(inner.tokens));
            lemma_nested_value(tokens::stream_tokens(inner.tokens), build);
        },
        None => lemma_entry_code(f, build),
    }
}

// ---------------------------------------------------------------------------
// The list
// ---------------------------------------------------------------------------

spec fn field_codes(fields: Seq<AccountsJsonField>) -> Seq<Code> {
    Seq::new(fields.len(), |i: int| field_code(fields[i]))
}

proof fn lemma_field_codes(fields: Seq<AccountsJsonField>, build: Build)
    ensures
        code::items_tokens(field_codes(fields)) == accounts::field_parts(fields),
        code::values(field_codes(fields), Map::empty(), build) == Seq::new(
            fields.len(),
            |i: int| Data::Text(listing::field_text(fields[i], build)),
        ),
    decreases fields.len(),
{
    let data = Seq::new(
        fields.len(),
        |i: int| Data::Text(listing::field_text(fields[i], build)),
    );
    if fields.len() > 0 {
        let front = fields.drop_last();
        lemma_field_codes(front, build);
        lemma_field_code(fields.last(), build);
        assert(field_codes(fields).drop_last() =~= field_codes(front));
        assert(field_codes(fields).last() == field_code(fields.last()));
        assert(code::values(field_codes(fields), Map::empty(), build) =~= data);
    } else {
        assert(code::values(field_codes(fields), Map::empty(), build) =~= data);
    }
}

spec fn parts_type() -> Seq<Token> {
    tokens::words(
        "anchor_lang :: __alloc :: vec :: Vec < anchor_lang :: __alloc :: string :: String >"@,
    )
}

/// `let __parts: .. = anchor_lang::__alloc::vec![..];`
spec fn parts_stmt(fields: Seq<AccountsJsonField>) -> Stmt {
    Stmt::Let(false, "__parts"@, Some(parts_type()), Code::Items(field_codes(fields)))
}

/// `let mut __s = anchor_lang::__alloc::string::String::from("[");`
spec fn open_stmt() -> Stmt {
    Stmt::Let(true, "__s"@, None, Code::From(boxed(Code::Str("["@))))
}

spec fn body_stmts(fields: Seq<AccountsJsonField>) -> Seq<Stmt> {
    (seq![parts_stmt(fields)].push(open_stmt()) + joins::loop_stmts(
        true,
        "__p"@,
        "__parts"@,
    )).push(Stmt::PushChar("__s"@, ']'))
}

proof fn lemma_loop_names()
    ensures
        "__p"@ != "__s"@,
        "__p"@ != "__first"@,
        "__parts"@ != "__s"@,
        "__parts"@ != "__first"@,
{
    reveal_strlit("__parts");
    reveal_strlit("__s");
    reveal_strlit("__p");
    reveal_strlit("__first");
    assert("__parts"@.len() == 7 && "__s"@.len() == 3 && "__p"@.len() == 3 && "__first"@.len() == 7
        && "__s"@[2] == 's' && "__p"@[2] == 'p' && "__parts"@[2] == 'p' && "__first"@[2] == 'f');
}

#[verifier::rlimit(60)]
proof fn lemma_opening(fields: Seq<AccountsJsonField>, build: Build)
    ensures
        ({
            let two = seq![parts_stmt(fields)].push(open_stmt());
            let end = code::after(two, Map::empty(), build);
            &&& code::stmts_tokens(two) == accounts::let_stmt(
                "__parts"@,
                Some(parts_type()),
                tokens::words("anchor_lang :: __alloc :: vec !"@) + tokens::group(
                    Delim::Bracket,
                    accounts::field_parts(fields),
                ),
            ) + pushes::let_string("__s"@, "["@)
            &&& !end.1
            &&& code::variable(end.0, "__parts"@) == Data::List(listing::field_texts(fields, build))
            &&& code::variable(end.0, "__s"@) == Data::Text("["@)
        }),
{
    lemma_loop_names();
    let empty = Map::<Seq<char>, Data>::empty();
    let texts = listing::field_texts(fields, build);
    let items = Code::Items(field_codes(fields));
    let literal = Code::Str("["@);
    let open = Code::From(boxed(literal));
    let s1 = parts_stmt(fields);
    let s2 = open_stmt();
    lemma_field_codes(fields, build);
    let data = code::values(field_codes(fields), empty, build);
    assert(Seq::new(data.len(), |i: int| data[i]->Text_0) =~= texts);
    assert(code::value(items, empty, build) == Data::List(texts));
    let v1 = empty.insert("__parts"@, Data::List(texts));
    assert(code::value(literal, v1, build) == Data::Text("["@));
    assert(code::value(open, v1, build) == Data::Text("["@));
    code::lemma_after_one(s1, empty, build);
    code::lemma_stmts_tokens_one(s1);
    code::lemma_push(seq![s1], s2, empty, build);
    assert(code::code_tokens(literal) == seq![Token::Str("["@)]);
    assert(code::code_tokens(items) == tokens::words("anchor_lang :: __alloc :: vec !"@)
        + tokens::group(Delim::Bracket, accounts::field_parts(fields)));
    assert(code::stmt_tokens(s2) =~= pushes::let_string("__s"@, "["@));
}

#[verifier::rlimit(60)]
proof fn lemma_body(fields: Seq<AccountsJsonField>, build: Build)
    ensures
        code::evaluates(
            tokens::group(Delim::Brace, accounts::accounts_body(fields)),
            build,
            Data::Text(
                json::array_text(joins::appended(true, listing::field_texts(fields, build))),
            ),
        ),
{
    lemma_loop_names();
    reveal_strlit("[");
    let empty = Map::<Seq<char>, Data>::empty();
    let texts = listing::field_texts(fields, build);
    let two = seq![parts_stmt(fields)].push(open_stmt());
    let last = Stmt::PushChar("__s"@, ']');
    let run = joins::loop_stmts(true, "__p"@, "__parts"@);
    lemma_opening(fields, build);
    let v2 = code::after(two, empty, build).0;
    joins::lemma_loop(true, "__p"@, "__parts"@, texts, "["@, v2, build);
    code::lemma_after_add(two, run, empty, build);
    code::lemma_stmts_tokens_add(two, run);
    let joined = "["@ + json::joined(joins::appended(true, texts), ',');
    code::lemma_push(two + run, last, empty, build);
    code::lemma_block(body_stmts(fields), "__s"@, empty, build);
    let whole = Code::Block(body_stmts(fields), boxed(Code::Var("__s"@)));
    assert("["@ =~= seq!['[']);
    assert(joined.push(']') =~= json::array_text(joins::appended(true, texts)));
    assert(code::stmt_tokens(last) == pushes::push_char("__s"@, ']'));
    assert(code::code_tokens(whole) == tokens::group(
        Delim::Brace,
        accounts::accounts_body(fields),
    ));
}

// ---------------------------------------------------------------------------
// Laws
// ---------------------------------------------------------------------------

/// The JSON of the address that the inputs of a field give it: that of the
/// expression where there is a type, else the path of fields, else what the
/// type knows.
pub open spec fn given_address(f: AccountsJsonField, build: Build) -> Option<Seq<char>> {
    if f.field_ty is Some && f.address_override_expr is Some {
        Some((build.json_string)((build.shown)(tokens::stream_tokens(*f.address_override_expr->0))))
    } else if f.address_override is Some {
        Some((build.json_string)(f.address_override->0@))
    } else if f.field_ty is Some {
        match (build.address)(tokens::stream_tokens(f.field_ty->0.tokens)) {
            Some(a) => Some((build.json_string)(a)),
            None => None,
        }
    } else {
        None
    }
}

/// The members of the entry of an account, by the inputs of its field. The name
/// and the relations stand between quotes as they are.
pub open spec fn given_members(f: AccountsJsonField, build: Build) -> Seq<(Seq<char>, Seq<char>)> {
    let signs = f.init_signer || f.field_ty is Some && (build.signs)(
        tokens::stream_tokens(f.field_ty->0.tokens),
    );
    seq![("name"@, seq!['"'] + f.name@ + seq!['"'])] + (if f.writable {
        seq![("writable"@, "true"@)]
    } else {
        Seq::empty()
    }) + (if signs {
        seq![("signer"@, "true"@)]
    } else {
        Seq::empty()
    }) + (match given_address(f, build) {
        Some(a) => seq![("address"@, a)],
        None => Seq::empty(),
    }) + (if f.is_optional {
        seq![("optional"@, "true"@)]
    } else {
        Seq::empty()
    }) + (if f.relations@.len() > 0 {
        seq![
            (
                "relations"@,
                json::array_text(
                    Seq::new(
                        f.relations@.len(),
                        |i: int| seq!['"'] + f.relations@[i]@ + seq!['"'],
                    ),
                ),
            ),
        ]
    } else {
        Seq::empty()
    }) + (if f.docs@.len() > 0 {
        seq![
            (
                "docs"@,
                json::array_text(Seq::new(f.docs@.len(), |i: int| json::quoted(f.docs@[i]@))),
            ),
        ]
    } else {
        Seq::empty()
    }) + (if f.pda_json is Some {
        seq![("pda"@, (build.string)(tokens::stream_tokens(f.pda_json->0)))]
    } else {
        Seq::empty()
    })
}

proof fn lemma_docs_value(lines: Seq<String>)
    ensures
        json::json_text(docs::docs_json(text::views(lines))) == json::array_text(
            Seq::new(lines.len(), |i: int| json::quoted(lines[i]@)),
        ),
{
    let markers = |i: nat| json::marker_text(i);
    let items = docs::docs_json(text::views(lines))->List_0;
    json::lemma_item_texts(items, markers);
    assert(json::item_texts(items, markers) =~= Seq::new(
        lines.len(),
        |i: int| json::quoted(lines[i]@),
    ));
}

proof fn lemma_given_members(f: AccountsJsonField, build: Build)
    ensures
        listing::entries_as_they_are(
            f,
            listing::account_signs(f, build),
            listing::address_value(f, build),
            listing::pda_value(f, build),
        ) == given_members(f, build),
{
    lemma_docs_value(f.docs@);
    assert(Seq::new(f.relations@.len(), |i: int| listing::in_quotes(f.relations@[i]@))
        =~= Seq::new(f.relations@.len(), |i: int| seq!['"'] + f.relations@[i]@ + seq!['"']));
    assert(listing::address_value(f, build) == given_address(f, build));
}

/// The code that is generated for an account evaluates to a JSON object: the
/// name, `writable`, `signer` and `optional` where the field or its type says
/// so, the address that the field gives or else the type knows, the relations,
/// the documentation lines and the PDA where there are any.
pub proof fn law_account_code_evaluates_to_its_entry(f: AccountsJsonField, build: Build)
    requires
        f.nested_inner_ty is None,
    ensures
        code::evaluates(
            accounts::field_part(f),
            build,
            Data::Text(json::object_text(given_members(f, build))),
        ),
{
    lemma_field_code(f, build);
    listing::law_account_prints_its_members(f, build);
    lemma_given_members(f, build);
}

/// The address that an expression gives is listed, whether or not a path of
/// fields is given too.
pub proof fn law_address_expressions_are_listed(f: AccountsJsonField, build: Build)
    requires
        f.nested_inner_ty is None,
        f.field_ty is Some,
        f.address_override_expr is Some,
    ensures
        exists|members: Seq<(Seq<char>, Seq<char>)>|
            code::evaluates(
                accounts::field_part(f),
                build,
                Data::Text(#[trigger] json::object_text(members)),
            ) && members.contains(
                (
                    "address"@,
                    (build.json_string)(
                        (build.shown)(tokens::stream_tokens(*f.address_override_expr->0)),
                    ),
                ),
            ),
{
    law_account_code_evaluates_to_its_entry(f, build);
    let members = given_members(f, build);
    let entry = (
        "address"@,
        (build.json_string)((build.shown)(tokens::stream_tokens(*f.address_override_expr->0))),
    );
    let signs = f.init_signer || f.field_ty is Some && (build.signs)(
        tokens::stream_tokens(f.field_ty->0.tokens),
    );
    let k = 1int + (if f.writable {
        1int
    } else {
        0int
    }) + (if signs {
        1int
    } else {
        0int
    });
    assert(members[k] == entry);
    assert(json::object_text(members) == json::object_text(members));
}

/// What a field adds to the list: its entry, or the entries of a nested struct
/// without the brackets of their list.
pub open spec fn given_part(f: AccountsJsonField, build: Build) -> Seq<char> {
    match f.nested_inner_ty {
        Some(inner) => {
            let list = (build.accounts)(tokens::stream_tokens(inner.tokens));
            if list.len() >= 2 && list[0] == '[' && list.last() == ']' {
                list.subrange(1, list.len() - 1)
            } else {
                list
            }
        },
        None => json::object_text(given_members(f, build)),
    }
}

/// The account list, by the inputs of its fields: what they add to it, in order,
/// empty parts being left out.
pub open spec fn given_list(fields: Seq<AccountsJsonField>, build: Build) -> Seq<char> {
    json::array_text(
        joins::appended(true, Seq::new(fields.len(), |i: int| given_part(fields[i], build))),
    )
}

/// The function that is generated for an accounts struct returns a JSON array
/// of what its fields add to it, in order, empty parts being left out.
pub proof fn law_accounts_code_evaluates_to_the_list(
    fields: Seq<AccountsJsonField>,
    build: Build,
)
    ensures
        code::accounts_fn_returns(
            accounts::accounts_fn(fields),
            build,
            Data::Text(
                json::array_text(
                    joins::appended(
                        true,
                        Seq::new(fields.len(), |i: int| given_part(fields[i], build)),
                    ),
                ),
            ),
        ),
{
    let texts = listing::field_texts(fields, build);
    let parts = Seq::new(fields.len(), |i: int| given_part(fields[i], build));
    assert forall|i: int| 0 <= i < fields.len() implies #[trigger] texts[i] == parts[i] by {
        match fields[i].nested_inner_ty {
            Some(inner) => {
                lemma_unbracketed((build.accounts)(tokens::stream_tokens(inner.tokens)));
            },
            None => {
                listing::law_account_prints_its_members(fields[i], build);
                lemma_given_members(fields[i], build);
            },
        }
    }
    assert(texts =~= parts);
    lemma_body(fields, build);
    let attrs = accounts::accounts_fn_attrs();
    let body = accounts::accounts_body(fields);
    assert(accounts::accounts_fn(fields) == attrs + tokens::words("pub fn __idl_accounts"@)
        + code::unit() + tokens::words("-> anchor_lang :: __alloc :: string :: String"@)
        + tokens::group(Delim::Brace, body));
}

/// The bytes below 128 in the code of a character stand for themselves.
proof fn lemma_scalar_bytes(c: char)
    ensures
        ({
            let e = utf8::encode_scalar(c as u32);
            &&& e.len() > 0
            &&& e[0] < 128 || e.last() < 128 ==> c as u32 == e[0] && e.len() == 1
        }),
{
    utf8::char_is_scalar(c);
    let v = c as u32;
    if v <= 0x7F {
        assert((v & 0x7F) as u8 == v) by (bit_vector)
            requires
                v <= 0x7F,
        ;
    } else {
        assert(0xC0u8 | ((v >> 6) & 0x1F) as u8 >= 128) by (bit_vector);
        assert(0xE0u8 | ((v >> 12) & 0x0F) as u8 >= 128) by (bit_vector);
        assert(0xF0u8 | ((v >> 18) & 0x7) as u8 >= 128) by (bit_vector);
        assert(0x80u8 | (v & 0x3F) as u8 >= 128) by (bit_vector);
    }
}

proof fn lemma_end_bytes(s: Seq<char>)
    requires
        s.len() > 0,
    ensures
        ({
            let bytes = utf8::encode_utf8(s);
            &&& bytes.len() > 0
            &&& bytes[0] == 91 ==> s[0] == '['
            &&& bytes[bytes.len() - 1] == 93 ==> s.last() == ']'
            &&& s.len() == 1 && bytes[0] == 91 ==> bytes.len() == 1
        }),
{
    let bytes = utf8::encode_utf8(s);
    let head = utf8::encode_scalar(s[0] as u32);
    let last = utf8::encode_scalar(s.last() as u32);
    let end = seq![s.last()];
    lemma_scalar_bytes(s[0]);
    lemma_scalar_bytes(s.last());
    assert(bytes[0] == head[0]);
    listing::lemma_encode_add(s.drop_last(), end);
    assert(s.drop_last() + end =~= s);
    assert(end.drop_first() =~= Seq::empty());
    assert(utf8::encode_utf8(Seq::empty()) =~= Seq::empty());
    assert(utf8::encode_utf8(end) =~= last);
    assert(bytes[bytes.len() - 1] == last.last());
    if s.len() == 1 {
        assert(s.drop_first() =~= Seq::empty());
        assert(bytes =~= head);
    }
    if bytes[0] == 91 {
        utf8::char_u32_cast(s[0], 91u32);
        utf8::char_u32_cast('[', 91u32);
    }
    if bytes[bytes.len() - 1] == 93 {
        utf8::char_u32_cast(s.last(), 93u32);
        utf8::char_u32_cast(']', 93u32);
    }
}

/// The first and the last byte of a text are brackets exactly if its first and
/// last character are.
proof fn lemma_unbracketed(s: Seq<char>)
    ensures
        listing::unbracketed(s) == if s.len() >= 2 && s[0] == '[' && s.last() == ']' {
            s.subrange(1, s.len() - 1)
        } else {
            s
        },
{
    let bytes = utf8::encode_utf8(s);
    let tests = accounts::bracket_tests();
    if s.len() >= 2 && s[0] == '[' && s.last() == ']' {
        let inner = s.subrange(1, s.len() - 1);
        let one = seq![inner];
        assert(json::joined(one, ',') == inner);
        listing::law_unbracketing_leaves_the_items(one);
        assert(json::array_text(one) =~= s);
    } else if forall|i: int|
        0 <= i < tests.len() ==> listing::byte_test_holds(#[trigger] tests[i], bytes) {
        assert(listing::byte_test_holds(tests[0], bytes));
        assert(listing::byte_test_holds(tests[1], bytes));
        assert(listing::byte_test_holds(tests[2], bytes));
        assert(s.len() > 0);
        lemma_end_bytes(s);
        assert(false);
    }
}

} // verus!
