//! The Rust code that is generated, and what it evaluates to.
//!
//! The code is read here as Rust: [`Code`] and [`Stmt`] are the forms of
//! expressions and statements that it consists of, with the tokens by which
//! they are written and the values that they have. Nothing here depends on how
//! the code is generated.

use crate::setting::Build;
use crate::tokens::{self, Delim, Token};
use vstd::prelude::*;
use vstd::string::*;
use vstd::utf8;

verus! {

/// A value of the generated code.
pub enum Data {
    Text(Seq<char>),
    Flag(bool),
    Maybe(Option<Seq<char>>),
    List(Seq<Seq<char>>),
    Bytes(Seq<u8>),
    /// The code has no value: it does not compile, or fails.
    Stuck,
}

/// A test of the bytes of a string.
pub enum Test {
    /// `name.len() >= n`
    AtLeast(Seq<char>, nat),
    /// `name[0] == byte`
    First(Seq<char>, u8),
    /// `name[name.len() - 1] == byte`
    Last(Seq<char>, u8),
}

/// An expression.
pub enum Code {
    /// `"text"`
    Str(Seq<char>),
    /// `true` or `false`
    Flag(bool),
    /// `name`
    Var(Seq<char>),
    /// Code that is not generated but given, and evaluates to a string.
    Foreign(Seq<Token>),
    /// `&code`
    Borrow(Box<Code>),
    /// `anchor_lang::__alloc::string::String::from(code)`
    From(Box<Code>),
    /// `anchor_lang::__alloc::string::String::new()`
    EmptyString,
    /// `{ stmts code }`
    Block(Seq<Stmt>, Box<Code>),
    /// `anchor_lang::__alloc::format!("template", args)`, possibly with a comma
    /// at the end.
    Format(Seq<char>, Seq<Code>, bool),
    /// `anchor_lang::idl_build::__idl_json_string(code)`
    JsonString(Box<Code>),
    /// `::core::convert::Into::into(tokens)`, for an address
    Into(Seq<Token>),
    /// `match name { Some(bound) => some, None => none, }`
    Match(Seq<char>, Seq<char>, Box<Code>, Box<Code>),
    /// `if name { yes } else { no }`
    If(Seq<char>, Box<Code>, Box<Code>),
    /// `<ty as anchor_lang::IdlAccountType>::__IDL_IS_SIGNER`
    IsSigner(Seq<Token>),
    /// `<ty as anchor_lang::IdlAccountType>::__IDL_ADDRESS`
    TypeAddress(Seq<Token>),
    /// `code || flag`
    Or(Box<Code>, bool),
    /// `<ty>::__idl_accounts()`
    AccountsOf(Seq<Token>),
    /// `name.as_bytes()`
    AsBytes(Seq<char>),
    /// `if tests { yes } else { no }`
    IfAll(Seq<Test>, Box<Code>, Box<Code>),
    /// `name[front..name.len() - back].to_string()`
    Slice(Seq<char>, nat, nat),
    /// `anchor_lang::__alloc::vec![items]`
    Items(Seq<Code>),
    /// `anchor_lang::__alloc::vec::Vec::new()`
    EmptyVec,
    /// `anchor_lang::__alloc::string::ToString::to_string(&((tokens) as usize))`
    UsizeText(Seq<Token>),
    /// `anchor_lang::__alloc::boxed::Box::leak(name.into_boxed_str()) as &'static str`
    Leak(Seq<char>),
    /// `::core::option::Option::Some(code)`
    SomeOf(Box<Code>),
}

/// A statement.
pub enum Stmt {
    /// `let name = code;`, with `mut` and the tokens of a type where they are
    /// given.
    Let(bool, Seq<char>, Option<Seq<Token>>, Code),
    /// `name.push_str(code);`
    PushStr(Seq<char>, Code),
    /// `name.push('c');`
    PushChar(Seq<char>, char),
    /// `<attributes> name.push(code);`
    PushItem(Seq<Token>, Seq<char>, Code),
    /// `name = false;`
    Clear(Seq<char>),
    /// `if !name { stmts }`
    Unless(Seq<char>, Seq<Stmt>),
    /// `if name.is_empty() { continue; }`
    SkipEmpty(Seq<char>),
    /// `for item in &list { stmts }`
    For(Seq<char>, Seq<char>, Seq<Stmt>),
}

// ---------------------------------------------------------------------------
// Tokens
// ---------------------------------------------------------------------------

pub open spec fn unit() -> Seq<Token> {
    tokens::group(Delim::Paren, Seq::empty())
}

pub open spec fn test_tokens(test: Test) -> Seq<Token> {
    match test {
        Test::AtLeast(name, n) => tokens::words(name) + tokens::words(". len"@) + unit()
            + tokens::words(">="@) + seq![Token::Number(n)],
        Test::First(name, byte) => tokens::words(name) + tokens::group(
            Delim::Bracket,
            seq![Token::Number(0)],
        ) + tokens::words("=="@) + seq![Token::Byte(byte)],
        Test::Last(name, byte) => tokens::words(name) + tokens::group(
            Delim::Bracket,
            tokens::words(name) + tokens::words(". len"@) + unit() + tokens::words("-"@) + seq![
                Token::Number(1),
            ],
        ) + tokens::words("=="@) + seq![Token::Byte(byte)],
    }
}

pub open spec fn tests_tokens(tests: Seq<Test>) -> Seq<Token>
    decreases tests.len(),
{
    if tests.len() == 0 {
        Seq::empty()
    } else if tests.len() == 1 {
        test_tokens(tests[0])
    } else {
        tests_tokens(tests.drop_last()) + tokens::words("&&"@) + test_tokens(tests.last())
    }
}

pub open spec fn code_tokens(code: Code) -> Seq<Token>
    decreases code,
{
    match code {
        Code::Str(s) => seq![Token::Str(s)],
        Code::Flag(flag) => tokens::words(
            if flag {
                "true"@
            } else {
                "false"@
            },
        ),
        Code::Var(name) => tokens::words(name),
        Code::Foreign(ts) => ts,
        Code::Borrow(c) => tokens::words("&"@) + code_tokens(*c),
        Code::From(c) => tokens::words("anchor_lang :: __alloc :: string :: String :: from"@)
            + tokens::group(Delim::Paren, code_tokens(*c)),
        Code::EmptyString => tokens::words(
            "anchor_lang :: __alloc :: string :: String :: new"@,
        ) + unit(),
        Code::Block(stmts, c) => tokens::group(Delim::Brace, stmts_tokens(stmts) + code_tokens(*c)),
        Code::Format(template, args, trailing) => tokens::words(
            "anchor_lang :: __alloc :: format !"@,
        ) + tokens::group(
            Delim::Paren,
            seq![Token::Str(template)] + args_tokens(args) + (if trailing {
                tokens::words(","@)
            } else {
                Seq::empty()
            }),
        ),
        Code::JsonString(c) => tokens::words("anchor_lang :: idl_build :: __idl_json_string"@)
            + tokens::group(Delim::Paren, code_tokens(*c)),
        Code::Into(ts) => tokens::words(":: core :: convert :: Into :: into"@) + tokens::group(
            Delim::Paren,
            ts,
        ),
        Code::Match(name, bound, some, none) => tokens::words("match"@) + tokens::words(name)
            + tokens::group(
            Delim::Brace,
            tokens::words("Some"@) + tokens::group(Delim::Paren, tokens::words(bound))
                + tokens::words("=>"@) + code_tokens(*some) + tokens::words(", None =>"@)
                + code_tokens(*none) + tokens::words(","@),
        ),
        Code::If(name, yes, no) => tokens::words("if"@) + tokens::words(name) + tokens::group(
            Delim::Brace,
            code_tokens(*yes),
        ) + tokens::words("else"@) + tokens::group(Delim::Brace, code_tokens(*no)),
        Code::IsSigner(ty) => tokens::words("<"@) + ty + tokens::words(
            "as anchor_lang :: IdlAccountType > ::"@,
        ) + tokens::words("__IDL_IS_SIGNER"@),
        Code::TypeAddress(ty) => tokens::words("<"@) + ty + tokens::words(
            "as anchor_lang :: IdlAccountType > ::"@,
        ) + tokens::words("__IDL_ADDRESS"@),
        Code::Or(c, flag) => code_tokens(*c) + tokens::words("||"@) + tokens::words(
            if flag {
                "true"@
            } else {
                "false"@
            },
        ),
        Code::AccountsOf(ty) => tokens::words("<"@) + ty + tokens::words("> :: __idl_accounts"@)
            + unit(),
        Code::AsBytes(name) => tokens::words(name) + tokens::words(". as_bytes"@) + unit(),
        Code::IfAll(tests, yes, no) => tokens::words("if"@) + tests_tokens(tests) + tokens::group(
            Delim::Brace,
            code_tokens(*yes),
        ) + tokens::words("else"@) + tokens::group(Delim::Brace, code_tokens(*no)),
        Code::Slice(name, front, back) => tokens::words(name) + tokens::group(
            Delim::Bracket,
            seq![Token::Number(front)] + tokens::words(".."@) + tokens::words(name)
                + tokens::words(". len"@) + unit() + tokens::words("-"@) + seq![
                Token::Number(back),
            ],
        ) + tokens::words(". to_string"@) + unit(),
        Code::Items(items) => tokens::words("anchor_lang :: __alloc :: vec !"@) + tokens::group(
            Delim::Bracket,
            items_tokens(items),
        ),
        Code::EmptyVec => tokens::words("anchor_lang :: __alloc :: vec :: Vec :: new"@) + unit(),
        Code::UsizeText(ts) => tokens::words(
            "anchor_lang :: __alloc :: string :: ToString :: to_string"@,
        ) + tokens::group(
            Delim::Paren,
            tokens::words("&"@) + tokens::group(
                Delim::Paren,
                tokens::group(Delim::Paren, ts) + tokens::words("as usize"@),
            ),
        ),
        Code::Leak(name) => tokens::words("anchor_lang :: __alloc :: boxed :: Box :: leak"@)
            + tokens::group(
            Delim::Paren,
            tokens::words(name) + tokens::words(". into_boxed_str"@) + unit(),
        ) + tokens::words("as & 'static str"@),
        Code::SomeOf(c) => tokens::words(":: core :: option :: Option :: Some"@) + tokens::group(
            Delim::Paren,
            code_tokens(*c),
        ),
    }
}

/// The arguments, each behind a comma.
pub open spec fn args_tokens(args: Seq<Code>) -> Seq<Token>
    decreases args,
{
    if args.len() == 0 {
        Seq::empty()
    } else {
        args_tokens(args.drop_last()) + tokens::words(","@) + code_tokens(args.last())
    }
}

/// The items, commas between them.
pub open spec fn items_tokens(items: Seq<Code>) -> Seq<Token>
    decreases items,
{
    if items.len() == 0 {
        Seq::empty()
    } else if items.len() == 1 {
        code_tokens(items.last())
    } else {
        items_tokens(items.drop_last()) + tokens::words(","@) + code_tokens(items.last())
    }
}

pub open spec fn stmt_tokens(stmt: Stmt) -> Seq<Token>
    decreases stmt,
{
    match stmt {
        Stmt::Let(mutable, name, ty, code) => tokens::words(
            if mutable {
                "let mut"@
            } else {
                "let"@
            },
        ) + tokens::words(name) + (match ty {
            Some(ts) => tokens::words(":"@) + ts,
            None => Seq::empty(),
        }) + tokens::words("="@) + code_tokens(code) + tokens::words(";"@),
        Stmt::PushStr(name, code) => tokens::words(name) + tokens::words(". push_str"@)
            + tokens::group(Delim::Paren, code_tokens(code)) + tokens::words(";"@),
        Stmt::PushChar(name, c) => tokens::words(name) + tokens::words(". push"@) + tokens::group(
            Delim::Paren,
            seq![Token::Char(c)],
        ) + tokens::words(";"@),
        Stmt::PushItem(attrs, name, code) => attrs + tokens::words(name) + tokens::words(". push"@)
            + tokens::group(Delim::Paren, code_tokens(code)) + tokens::words(";"@),
        Stmt::Clear(name) => tokens::words(name) + tokens::words("= false ;"@),
        Stmt::Unless(name, stmts) => tokens::words("if !"@) + tokens::words(name) + tokens::group(
            Delim::Brace,
            stmts_tokens(stmts),
        ),
        Stmt::SkipEmpty(name) => tokens::words("if"@) + tokens::words(name) + tokens::words(
            ". is_empty"@,
        ) + unit() + tokens::group(Delim::Brace, tokens::words("continue ;"@)),
        Stmt::For(item, list, stmts) => tokens::words("for"@) + tokens::words(item)
            + tokens::words("in &"@) + tokens::words(list) + tokens::group(
            Delim::Brace,
            stmts_tokens(stmts),
        ),
    }
}

pub open spec fn stmts_tokens(stmts: Seq<Stmt>) -> Seq<Token>
    decreases stmts,
{
    if stmts.len() == 0 {
        Seq::empty()
    } else {
        stmts_tokens(stmts.drop_last()) + stmt_tokens(stmts.last())
    }
}

// ---------------------------------------------------------------------------
// Values
// ---------------------------------------------------------------------------

/// What `format!` makes of a format string and its arguments: `{}` stands for
/// the next argument, `{{` and `}}` for a brace. Other braces do not compile.
pub open spec fn format_value(template: Seq<char>, args: Seq<Data>) -> Data
    decreases template.len(),
{
    if template.len() == 0 {
        if args.len() == 0 {
            Data::Text(Seq::empty())
        } else {
            Data::Stuck
        }
    } else if template[0] == '{' && template.len() > 1 && template[1] == '}' {
        if args.len() == 0 {
            Data::Stuck
        } else {
            match (args[0], format_value(template.skip(2), args.drop_first())) {
                (Data::Text(arg), Data::Text(rest)) => Data::Text(arg + rest),
                _ => Data::Stuck,
            }
        }
    } else if template[0] == '{' || template[0] == '}' {
        if template.len() > 1 && template[1] == template[0] {
            match format_value(template.skip(2), args) {
                Data::Text(rest) => Data::Text(seq![template[0]] + rest),
                _ => Data::Stuck,
            }
        } else {
            Data::Stuck
        }
    } else {
        match format_value(template.skip(1), args) {
            Data::Text(rest) => Data::Text(seq![template[0]] + rest),
            _ => Data::Stuck,
        }
    }
}

pub type Vars = Map<Seq<char>, Data>;

pub open spec fn variable(vars: Vars, name: Seq<char>) -> Data {
    if vars.dom().contains(name) {
        vars[name]
    } else {
        Data::Stuck
    }
}

pub open spec fn test_holds(test: Test, vars: Vars) -> bool {
    match test {
        Test::AtLeast(name, n) => variable(vars, name) matches Data::Bytes(b) && b.len() >= n,
        Test::First(name, byte) => variable(vars, name) matches Data::Bytes(b) && b.len() > 0
            && b[0] == byte,
        Test::Last(name, byte) => variable(vars, name) matches Data::Bytes(b) && b.len() > 0
            && b[b.len() - 1] == byte,
    }
}

/// What an expression evaluates to where the variables have the given values.
/// The statements of a block act on the variables of the block alone.
pub open spec fn value(code: Code, vars: Vars, build: Build) -> Data
    decreases code, 0nat, 0nat,
{
    match code {
        Code::Str(s) => Data::Text(s),
        Code::Flag(flag) => Data::Flag(flag),
        Code::Var(name) => variable(vars, name),
        Code::Foreign(ts) => Data::Text((build.string)(ts)),
        Code::Borrow(c) => value(*c, vars, build),
        Code::From(c) => value(*c, vars, build),
        Code::EmptyString => Data::Text(Seq::empty()),
        Code::Block(stmts, c) => value(*c, after(stmts, vars, build).0, build),
        Code::Format(template, args, _) => format_value(template, values(args, vars, build)),
        Code::JsonString(c) => match value(*c, vars, build) {
            Data::Text(s) => Data::Text((build.json_string)(s)),
            _ => Data::Stuck,
        },
        Code::Into(ts) => Data::Text((build.shown)(ts)),
        Code::Match(name, bound, some, none) => match variable(vars, name) {
            Data::Maybe(Some(s)) => value(*some, vars.insert(bound, Data::Text(s)), build),
            Data::Maybe(None) => value(*none, vars, build),
            _ => Data::Stuck,
        },
        Code::If(name, yes, no) => match variable(vars, name) {
            Data::Flag(flag) => if flag {
                value(*yes, vars, build)
            } else {
                value(*no, vars, build)
            },
            _ => Data::Stuck,
        },
        Code::IsSigner(ty) => Data::Flag((build.signs)(ty)),
        Code::TypeAddress(ty) => Data::Maybe((build.address)(ty)),
        Code::Or(c, flag) => match value(*c, vars, build) {
            Data::Flag(b) => Data::Flag(b || flag),
            _ => Data::Stuck,
        },
        Code::AccountsOf(ty) => Data::Text((build.accounts)(ty)),
        Code::AsBytes(name) => match variable(vars, name) {
            Data::Text(s) => Data::Bytes(utf8::encode_utf8(s)),
            _ => Data::Stuck,
        },
        Code::IfAll(tests, yes, no) => if forall|i: int|
            0 <= i < tests.len() ==> test_holds(#[trigger] tests[i], vars) {
            value(*yes, vars, build)
        } else {
            value(*no, vars, build)
        },
        Code::Slice(name, front, back) => match variable(vars, name) {
            Data::Text(s) => {
                let bytes = utf8::encode_utf8(s);
                if front + back <= bytes.len() {
                    Data::Text(
                        utf8::decode_utf8(bytes.subrange(front as int, bytes.len() - back)),
                    )
                } else {
                    Data::Stuck
                }
            },
            _ => Data::Stuck,
        },
        Code::Items(items) => all_texts(values(items, vars, build)),
        Code::EmptyVec => Data::List(Seq::empty()),
        Code::UsizeText(ts) => Data::Text((build.length)(ts)),
        Code::Leak(name) => variable(vars, name),
        Code::SomeOf(c) => match value(*c, vars, build) {
            Data::Text(s) => Data::Maybe(Some(s)),
            _ => Data::Stuck,
        },
    }
}

pub open spec fn values(codes: Seq<Code>, vars: Vars, build: Build) -> Seq<Data>
    decreases codes, 0nat, 0nat,
{
    if codes.len() == 0 {
        Seq::empty()
    } else {
        values(codes.drop_last(), vars, build).push(value(codes.last(), vars, build))
    }
}

/// The list of the texts.
pub open spec fn all_texts(data: Seq<Data>) -> Data {
    if forall|i: int| 0 <= i < data.len() ==> (#[trigger] data[i]) is Text {
        Data::List(Seq::new(data.len(), |i: int| data[i]->Text_0))
    } else {
        Data::Stuck
    }
}

/// The variables after a statement, and whether the pass of the loop ends with
/// it.
pub open spec fn after_one(stmt: Stmt, vars: Vars, build: Build) -> (Vars, bool)
    decreases stmt, 0nat, 0nat,
{
    match stmt {
        Stmt::Let(_, name, _, code) => (vars.insert(name, value(code, vars, build)), false),
        Stmt::PushStr(name, code) => match (variable(vars, name), value(code, vars, build)) {
            (Data::Text(s), Data::Text(t)) => (vars.insert(name, Data::Text(s + t)), false),
            _ => (vars.insert(name, Data::Stuck), false),
        },
        Stmt::PushChar(name, c) => match variable(vars, name) {
            Data::Text(s) => (vars.insert(name, Data::Text(s.push(c))), false),
            _ => (vars.insert(name, Data::Stuck), false),
        },
        Stmt::PushItem(attrs, name, code) => if (build.holds)(attrs) {
            match (variable(vars, name), value(code, vars, build)) {
                (Data::List(l), Data::Text(t)) => (vars.insert(name, Data::List(l.push(t))), false),
                _ => (vars.insert(name, Data::Stuck), false),
            }
        } else {
            (vars, false)
        },
        Stmt::Clear(name) => (vars.insert(name, Data::Flag(false)), false),
        Stmt::Unless(name, stmts) => match variable(vars, name) {
            Data::Flag(true) => (vars, false),
            Data::Flag(false) => after(stmts, vars, build),
            _ => (Map::empty(), false),
        },
        Stmt::SkipEmpty(name) => match variable(vars, name) {
            Data::Text(s) => (vars, s.len() == 0),
            _ => (Map::empty(), false),
        },
        Stmt::For(item, list, stmts) => match variable(vars, list) {
            Data::List(items) => (after_passes(item, items, stmts, vars, build), false),
            _ => (Map::empty(), false),
        },
    }
}

pub open spec fn after(stmts: Seq<Stmt>, vars: Vars, build: Build) -> (Vars, bool)
    decreases stmts, 0nat, 0nat,
{
    if stmts.len() == 0 {
        (vars, false)
    } else {
        let (before, done) = after(stmts.drop_last(), vars, build);
        if done {
            (before, done)
        } else {
            after_one(stmts.last(), before, build)
        }
    }
}

/// The variables after the passes of a loop over the items.
pub open spec fn after_passes(
    item: Seq<char>,
    items: Seq<Seq<char>>,
    stmts: Seq<Stmt>,
    vars: Vars,
    build: Build,
) -> Vars
    decreases stmts, 1nat, items.len(),
{
    if items.len() == 0 {
        vars
    } else {
        let before = after_passes(item, items.drop_last(), stmts, vars, build);
        after(stmts, before.insert(item, Data::Text(items.last())), build).0
    }
}

/// The tokens are the function `__idl_accounts`, and it returns the value.
pub open spec fn accounts_fn_returns(ts: Seq<Token>, build: Build, data: Data) -> bool {
    exists|attrs: Seq<Token>, body: Seq<Token>|
        ts == #[trigger] (attrs + tokens::words("pub fn __idl_accounts"@) + unit() + tokens::words(
            "-> anchor_lang :: __alloc :: string :: String"@,
        ) + tokens::group(Delim::Brace, body)) && evaluates(
            tokens::group(Delim::Brace, body),
            build,
            data,
        )
}

/// The tokens are code that evaluates to the value.
pub open spec fn evaluates(ts: Seq<Token>, build: Build, data: Data) -> bool {
    exists|code: Code| #[trigger] code_tokens(code) == ts && value(code, Map::empty(), build) == data
}

// ---------------------------------------------------------------------------
// Sequences of statements
// ---------------------------------------------------------------------------

pub proof fn lemma_stmts_tokens_add(a: Seq<Stmt>, b: Seq<Stmt>)
    ensures
        stmts_tokens(a + b) == stmts_tokens(a) + stmts_tokens(b),
    decreases b.len(),
{
    if b.len() == 0 {
        assert(a + b =~= a);
        assert(stmts_tokens(a) + stmts_tokens(b) =~= stmts_tokens(a));
    } else {
        assert((a + b).drop_last() =~= a + b.drop_last());
        lemma_stmts_tokens_add(a, b.drop_last());
        assert(stmts_tokens(a + b) =~= stmts_tokens(a) + stmts_tokens(b));
    }
}

pub proof fn lemma_stmts_tokens_one(stmt: Stmt)
    ensures
        stmts_tokens(seq![stmt]) == stmt_tokens(stmt),
{
    assert(seq![stmt].drop_last() =~= Seq::empty());
    assert(stmts_tokens(Seq::empty()) =~= Seq::empty());
    assert(stmts_tokens(seq![stmt]) =~= stmt_tokens(stmt));
}

pub proof fn lemma_after_one(stmt: Stmt, vars: Vars, build: Build)
    ensures
        after(seq![stmt], vars, build) == after_one(stmt, vars, build),
{
    assert(seq![stmt].drop_last() =~= Seq::empty());
    assert(after(Seq::empty(), vars, build) == (vars, false));
}

pub proof fn lemma_after_add(a: Seq<Stmt>, b: Seq<Stmt>, vars: Vars, build: Build)
    ensures
        after(a + b, vars, build) == if after(a, vars, build).1 {
            after(a, vars, build)
        } else {
            after(b, after(a, vars, build).0, build)
        },
    decreases b.len(),
{
    if b.len() == 0 {
        assert(a + b =~= a);
    } else {
        assert((a + b).drop_last() =~= a + b.drop_last());
        assert((a + b).last() == b.last());
        lemma_after_add(a, b.drop_last(), vars, build);
    }
}

/// One more statement.
pub proof fn lemma_push(stmts: Seq<Stmt>, stmt: Stmt, vars: Vars, build: Build)
    ensures
        stmts_tokens(stmts.push(stmt)) == stmts_tokens(stmts) + stmt_tokens(stmt),
        !after(stmts, vars, build).1 ==> after(stmts.push(stmt), vars, build) == after_one(
            stmt,
            after(stmts, vars, build).0,
            build,
        ),
{
    assert(stmts.push(stmt).drop_last() =~= stmts);
    assert(stmts.push(stmt).last() == stmt);
}

/// A block that ends with a variable.
pub proof fn lemma_block(stmts: Seq<Stmt>, name: Seq<char>, vars: Vars, build: Build)
    ensures
        code_tokens(Code::Block(stmts, Box::new(Code::Var(name)))) == tokens::group(
            Delim::Brace,
            stmts_tokens(stmts) + tokens::words(name),
        ),
        value(Code::Block(stmts, Box::new(Code::Var(name))), vars, build) == variable(
            after(stmts, vars, build).0,
            name,
        ),
{
    let var = Code::Var(name);
    assert(code_tokens(var) == tokens::words(name));
    assert(value(var, after(stmts, vars, build).0, build) == variable(
        after(stmts, vars, build).0,
        name,
    ));
}

pub proof fn lemma_block_of(c: Code, vars: Vars, build: Build)
    ensures
        code_tokens(Code::Block(Seq::empty(), Box::new(c))) == tokens::group(
            Delim::Brace,
            code_tokens(c),
        ),
        value(Code::Block(Seq::empty(), Box::new(c)), vars, build) == value(c, vars, build),
{
    assert(stmts_tokens(Seq::empty()) + code_tokens(c) =~= code_tokens(c));
    assert(after(Seq::empty(), vars, build) == (vars, false));
}

} // verus!
