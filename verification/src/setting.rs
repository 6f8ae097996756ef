//! The build in which the generated code runs.

use crate::tokens::Token;
use vstd::prelude::*;
use vstd::string::*;

verus! {

/// What the generated code refers to, as it is when the IDL is built. Types,
/// expressions and attributes are given by their tokens.
pub struct Build {
    /// The `cfg` attributes hold.
    pub holds: spec_fn(Seq<Token>) -> bool,
    /// The decimal digits of the value of a length expression.
    pub length: spec_fn(Seq<Token>) -> Seq<char>,
    /// The constant `__IDL_IS_SIGNER` of a type.
    pub signs: spec_fn(Seq<Token>) -> bool,
    /// The constant `__IDL_ADDRESS` of a type.
    pub address: spec_fn(Seq<Token>) -> Option<Seq<char>>,
    /// What the address that an expression evaluates to displays.
    pub shown: spec_fn(Seq<Token>) -> Seq<char>,
    /// What `__idl_json_string` makes of a text.
    pub json_string: spec_fn(Seq<char>) -> Seq<char>,
    /// The string that an expression evaluates to.
    pub string: spec_fn(Seq<Token>) -> Seq<char>,
    /// What `__idl_accounts` of a type returns.
    pub accounts: spec_fn(Seq<Token>) -> Seq<char>,
}

} // verus!
