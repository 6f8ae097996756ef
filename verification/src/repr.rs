//! The modifiers of `#[repr(...)]` attributes.

use crate::syntax::{Attribute, Meta};
use crate::text;
use crate::typedefs::BytemuckRepr;
use proc_macro2::{Span, TokenStream};
use syn::punctuated::Punctuated;
use syn::spanned::Spanned;
use syn::token::{Comma, Paren};
use syn::{LitInt, MacroDelimiter, MetaList};
use vstd::prelude::*;
use vstd::string::*;

verus! {

// ---------------------------------------------------------------------------
// syn
// ---------------------------------------------------------------------------

#[verifier::external_type_specification]
#[verifier::external_body]
pub struct ExSynError(syn::Error);

/// The message of an error: what `syn::Error::to_string` prints.
pub uninterp spec fn error_text(e: syn::Error) -> Seq<char>;

/// Where an error points: the first and the last token that it is about.
pub uninterp spec fn error_place(e: syn::Error) -> (Span, Span);

/// What an error says, and where it points.
pub struct Fault {
    pub text: Seq<char>,
    pub place: (Span, Span),
}

pub open spec fn fault(e: syn::Error) -> Fault {
    Fault { text: error_text(e), place: error_place(e) }
}

/// One item of an attribute's argument list.
pub struct MetaItem {
    /// The identifier that the path of the item consists of, if it is a single
    /// one.
    pub name: Option<String>,
    pub args: MetaArgs,
}

pub enum MetaArgs {
    /// `name`
    Word,
    /// `name(tokens)`, with the place of the item and that of the closing
    /// delimiter.
    List(TokenStream, Span, Span),
    /// `name = value`
    Value,
}

/// What an item holds.
pub struct MetaView {
    pub name: Option<Seq<char>>,
    pub args: MetaArgs,
}

pub open spec fn name_view(name: Option<String>) -> Option<Seq<char>> {
    match name {
        Some(s) => Some(s@),
        None => None,
    }
}

impl View for MetaItem {
    type V = MetaView;

    open spec fn view(&self) -> MetaView {
        MetaView { name: name_view(self.name), args: self.args }
    }
}

pub open spec fn meta_views(items: Seq<MetaItem>) -> Seq<MetaView> {
    Seq::new(items.len(), |i: int| items[i]@)
}

/// The items of a comma-separated list of attribute items between delimiters
/// that close at `close`, or why the tokens are no such list.
pub uninterp spec fn meta_items(ts: TokenStream, close: Span) -> Result<Seq<MetaView>, Fault>;

/// The base 10 digits and the place of an integer literal between delimiters
/// that close at `close`, or why the tokens are none.
pub uninterp spec fn int_literal(ts: TokenStream, close: Span) -> Result<(Seq<char>, Span), Fault>;

/// `syn::Error::to_string`: the message of the error.
#[verifier::external_body]
fn error_to_string(e: &syn::Error) -> (text: String)
    ensures
        text@ == error_text(*e),
{
    e.to_string()
}

/// `syn::Error::new`: an error with the given message at the given place.
#[verifier::external_body]
fn new_error(span: Span, message: &str) -> (e: syn::Error)
    ensures
        error_text(e) == message@,
        error_place(e) == (span, span),
{
    syn::Error::new(span, message)
}

/// `syn::MetaList::parse_args_with`, with
/// `Punctuated::<syn::Meta, Comma>::parse_terminated` as the parser: reads the
/// tokens as a comma-separated list of attribute items. On any other tokens it
/// fails; where they end too early, the error points at the closing delimiter.
#[verifier::external_body]
fn parse_meta_items(ts: &TokenStream, close: Span) -> (items: Result<Vec<MetaItem>, syn::Error>)
    ensures
        match items {
            Ok(list) => meta_items(*ts, close) == Ok::<Seq<MetaView>, Fault>(meta_views(list@)),
            Err(e) => meta_items(*ts, close) == Err::<Seq<MetaView>, Fault>(fault(e)),
        },
{
    let path = syn::Path { leading_colon: None, segments: Punctuated::new() };
    let delimiter = MacroDelimiter::Paren(Paren(close));
    let convert = |meta: syn::Meta| MetaItem {
        name: meta.path().get_ident().map(|ident| ident.to_string()),
        args: match meta {
            syn::Meta::Path(_) => MetaArgs::Word,
            syn::Meta::List(l) => MetaArgs::List(l.tokens.clone(), l.span(), l.delimiter.span().close()),
            syn::Meta::NameValue(_) => MetaArgs::Value,
        },
    };
    let parser = Punctuated::<syn::Meta, Comma>::parse_terminated;
    let list = MetaList { path, delimiter, tokens: ts.clone() };
    Ok(list.parse_args_with(parser)?.into_iter().map(convert).collect())
}

/// `syn::MetaList::parse_args::<LitInt>`, then `LitInt::base10_digits` and
/// `LitInt::span`: the digits and the place of the integer literal that the
/// tokens are. On any other tokens it fails; where they end too early, the error
/// points at the closing delimiter.
#[verifier::external_body]
fn parse_int_literal(ts: &TokenStream, close: Span) -> (literal: Result<
    (String, Span),
    syn::Error,
>)
    ensures
        match literal {
            Ok((digits, place)) => int_literal(*ts, close) == Ok::<(Seq<char>, Span), Fault>(
                (digits@, place),
            ),
            Err(e) => int_literal(*ts, close) == Err::<(Seq<char>, Span), Fault>(fault(e)),
        },
{
    let path = syn::Path { leading_colon: None, segments: Punctuated::new() };
    let delimiter = MacroDelimiter::Paren(Paren(close));
    let list = MetaList { path, delimiter, tokens: ts.clone() };
    let literal = list.parse_args::<LitInt>()?;
    Ok((literal.base10_digits().to_owned(), literal.span()))
}

// ---------------------------------------------------------------------------
// Modifiers
// ---------------------------------------------------------------------------

/// One modifier of a `#[repr(...)]` attribute.
pub struct ReprModifier {
    pub name: Option<String>,
    pub arg: ReprArg,
}

pub enum ReprArg {
    /// `name`
    Word,
    /// `name(digits)`, with the place of the literal and that of the modifier.
    Digits(String, Span, Span),
    /// `name(..)` with something else than an integer literal, and why it is
    /// none.
    NoInteger(syn::Error),
    /// `name = value`
    Value,
}

/// What a modifier holds.
pub struct ModifierView {
    pub name: Option<Seq<char>>,
    pub arg: ReprArgView,
}

pub enum ReprArgView {
    Word,
    Digits(Seq<char>, Span, Span),
    NoInteger(Fault),
    Value,
}

impl View for ReprModifier {
    type V = ModifierView;

    open spec fn view(&self) -> ModifierView {
        ModifierView {
            name: name_view(self.name),
            arg: match self.arg {
                ReprArg::Word => ReprArgView::Word,
                ReprArg::Digits(s, literal, place) => ReprArgView::Digits(s@, literal, place),
                ReprArg::NoInteger(e) => ReprArgView::NoInteger(fault(e)),
                ReprArg::Value => ReprArgView::Value,
            },
        }
    }
}

pub open spec fn modifier_views(modifiers: Seq<ReprModifier>) -> Seq<ModifierView> {
    Seq::new(modifiers.len(), |i: int| modifiers[i]@)
}

/// Why a representation cannot be read, with the place of what is wrong.
pub enum ReprError {
    /// The arguments of the attribute or of a modifier do not parse.
    Syntax(syn::Error),
    /// The attribute has no arguments. The flag tells an inner attribute.
    MissingArguments(bool, Span),
    /// The attribute has a value in place of arguments. The flag tells an inner
    /// attribute.
    MissingParentheses(bool, Span),
    /// A number does not fit its type.
    NumberTooLarge(Span),
    /// A number has a sign.
    InvalidDigit(Span),
    /// The type is packed to another width than one byte.
    PackedWidth(Span),
}

/// What a [`ReprError`] holds.
pub enum ReprFailure {
    Syntax(Fault),
    MissingArguments(bool, Span),
    MissingParentheses(bool, Span),
    NumberTooLarge(Span),
    InvalidDigit(Span),
    PackedWidth(Span),
}

impl View for ReprError {
    type V = ReprFailure;

    open spec fn view(&self) -> ReprFailure {
        match self {
            ReprError::Syntax(e) => ReprFailure::Syntax(fault(*e)),
            ReprError::MissingArguments(inner, span) => ReprFailure::MissingArguments(*inner, *span),
            ReprError::MissingParentheses(inner, span) => ReprFailure::MissingParentheses(
                *inner,
                *span,
            ),
            ReprError::NumberTooLarge(span) => ReprFailure::NumberTooLarge(*span),
            ReprError::InvalidDigit(span) => ReprFailure::InvalidDigit(*span),
            ReprError::PackedWidth(span) => ReprFailure::PackedWidth(*span),
        }
    }
}

impl ReprFailure {
    /// The message for the user, and where it points.
    pub open spec fn spec_fault(self) -> Fault {
        match self {
            ReprFailure::Syntax(fault) => fault,
            ReprFailure::MissingArguments(inner, span) => Fault {
                text: if inner {
                    "expected attribute arguments in parentheses: #![repr(...)]"@
                } else {
                    "expected attribute arguments in parentheses: #[repr(...)]"@
                },
                place: (span, span),
            },
            ReprFailure::MissingParentheses(inner, span) => Fault {
                text: if inner {
                    "expected parentheses: #![repr(...)]"@
                } else {
                    "expected parentheses: #[repr(...)]"@
                },
                place: (span, span),
            },
            ReprFailure::NumberTooLarge(span) => Fault {
                text: "number too large to fit in target type"@,
                place: (span, span),
            },
            ReprFailure::InvalidDigit(span) => Fault {
                text: "invalid digit found in string"@,
                place: (span, span),
            },
            ReprFailure::PackedWidth(span) => Fault {
                text:
                    "Anchor IDL only supports `#[repr(..., packed)]` or `#[repr(..., packed(1))]`; other packed widths would produce a lossy IDL layout"@,
                place: (span, span),
            },
        }
    }
}

impl ReprError {
    /// The error as the compiler shows it: message and place.
    pub fn into_error(self) -> (e: syn::Error)
        ensures
            fault(e) == self@.spec_fault(),
    {
        match self {
            ReprError::Syntax(e) => e,
            ReprError::MissingArguments(inner, span) => if inner {
                new_error(span, "expected attribute arguments in parentheses: #![repr(...)]")
            } else {
                new_error(span, "expected attribute arguments in parentheses: #[repr(...)]")
            },
            ReprError::MissingParentheses(inner, span) => if inner {
                new_error(span, "expected parentheses: #![repr(...)]")
            } else {
                new_error(span, "expected parentheses: #[repr(...)]")
            },
            ReprError::NumberTooLarge(span) => new_error(
                span,
                "number too large to fit in target type",
            ),
            ReprError::InvalidDigit(span) => new_error(span, "invalid digit found in string"),
            ReprError::PackedWidth(span) => new_error(
                span,
                "Anchor IDL only supports `#[repr(..., packed)]` or `#[repr(..., packed(1))]`; other packed widths would produce a lossy IDL layout",
            ),
        }
    }

    /// The message for the user.
    pub fn into_message(self) -> (text: String)
        ensures
            text@ == self@.spec_fault().text,
    {
        error_to_string(&self.into_error())
    }
}

/// The number that digits at the given place denote.
pub open spec fn number(digits: Seq<char>, place: Span) -> Result<nat, ReprFailure> {
    match text::parsed_number(digits, usize::MAX as nat) {
        Some(n) => Ok(n),
        None => if digits.len() > 0 && (forall|i: int|
            0 <= i < digits.len() ==> '0' <= #[trigger] digits[i] <= '9') {
            Err(ReprFailure::NumberTooLarge(place))
        } else {
            Err(ReprFailure::InvalidDigit(place))
        },
    }
}

/// The representation with one more modifier. `packed` and `packed(1)` set the
/// flag, `align(n)` the alignment; other packed widths would be lost in the IDL
/// and are rejected. Modifiers of other names do not matter.
pub open spec fn modified(repr: BytemuckRepr, modifier: ModifierView) -> Result<
    BytemuckRepr,
    ReprFailure,
> {
    let packed = BytemuckRepr { packed: true, align: repr.align };
    if modifier.name == Some("packed"@) {
        match modifier.arg {
            ReprArgView::Word => Ok(packed),
            ReprArgView::Digits(digits, literal, place) => match number(digits, literal) {
                Ok(n) => if n == 1 {
                    Ok(packed)
                } else {
                    Err(ReprFailure::PackedWidth(place))
                },
                Err(e) => Err(e),
            },
            ReprArgView::NoInteger(fault) => Err(ReprFailure::Syntax(fault)),
            ReprArgView::Value => Ok(repr),
        }
    } else if modifier.name == Some("align"@) {
        match modifier.arg {
            ReprArgView::Digits(digits, literal, _) => match number(digits, literal) {
                Ok(n) => Ok(BytemuckRepr { packed: repr.packed, align: Some(n as usize) }),
                Err(e) => Err(e),
            },
            ReprArgView::NoInteger(fault) => Err(ReprFailure::Syntax(fault)),
            _ => Ok(repr),
        }
    } else {
        Ok(repr)
    }
}

/// The representation with the modifiers in order, up to the first that fails.
pub open spec fn all_modified(repr: BytemuckRepr, modifiers: Seq<ModifierView>) -> Result<
    BytemuckRepr,
    ReprFailure,
>
    decreases modifiers.len(),
{
    if modifiers.len() == 0 {
        Ok(repr)
    } else {
        match modified(repr, modifiers[0]) {
            Ok(next) => all_modified(next, modifiers.drop_first()),
            Err(e) => Err(e),
        }
    }
}

/// The modifier that an item is read as.
pub open spec fn item_modifier(item: MetaView) -> ModifierView {
    ModifierView {
        name: item.name,
        arg: match item.args {
            MetaArgs::Word => ReprArgView::Word,
            MetaArgs::List(ts, place, close) => match int_literal(ts, close) {
                Ok((digits, literal)) => ReprArgView::Digits(digits, literal, place),
                Err(fault) => ReprArgView::NoInteger(fault),
            },
            MetaArgs::Value => ReprArgView::Value,
        },
    }
}

pub open spec fn item_modifiers(items: Seq<MetaView>) -> Seq<ModifierView> {
    Seq::new(items.len(), |i: int| item_modifier(items[i]))
}

/// The modifiers of an attribute.
pub open spec fn attr_modifiers(attr: Attribute) -> Result<Seq<ModifierView>, ReprFailure> {
    match attr.meta {
        Meta::Path(_, span) => Err(ReprFailure::MissingArguments(attr.inner, span)),
        Meta::NameValue(_, _, span) => Err(ReprFailure::MissingParentheses(attr.inner, span)),
        Meta::List(_, ts, close) => match meta_items(ts, close) {
            Ok(items) => Ok(item_modifiers(items)),
            Err(fault) => Err(ReprFailure::Syntax(fault)),
        },
    }
}

/// The representation with the modifiers of all `repr` attributes, in order.
pub open spec fn repr_of(repr: BytemuckRepr, attrs: Seq<Attribute>) -> Result<
    BytemuckRepr,
    ReprFailure,
>
    decreases attrs.len(),
{
    if attrs.len() == 0 {
        Ok(repr)
    } else if attrs[0].spec_path().ident() == Some("repr"@) {
        match attr_modifiers(attrs[0]) {
            Ok(modifiers) => match all_modified(repr, modifiers) {
                Ok(next) => repr_of(next, attrs.drop_first()),
                Err(e) => Err(e),
            },
            Err(e) => Err(e),
        }
    } else {
        repr_of(repr, attrs.drop_first())
    }
}

/// The outcome of a function, errors taken by their kind.
pub open spec fn outcome(result: Result<BytemuckRepr, ReprError>) -> Result<
    BytemuckRepr,
    ReprFailure,
> {
    match result {
        Ok(repr) => Ok(repr),
        Err(e) => Err(e@),
    }
}

fn read_number(digits: &str, place: Span) -> (value: Result<usize, ReprError>)
    ensures
        match value {
            Ok(n) => number(digits@, place) == Ok::<nat, ReprFailure>(n as nat),
            Err(e) => number(digits@, place) == Err::<nat, ReprFailure>(e@),
        },
{
    if let Some(n) = text::parse_number(digits, usize::MAX) {
        return Ok(n);
    }
    let len: usize = digits.unicode_len();
    let mut i: usize = 0;
    while i < len
        invariant
            len == digits@.len(),
            i <= len,
            text::parsed_number(digits@, usize::MAX as nat) is None,
            forall|k: int| 0 <= k < i ==> '0' <= #[trigger] digits@[k] <= '9',
        decreases len - i,
    {
        let c: char = digits.get_char(i);
        if !('0' <= c && c <= '9') {
            assert(!('0' <= digits@[i as int] <= '9'));
            return Err(ReprError::InvalidDigit(place));
        }
        i = i + 1;
    }
    if len == 0 {
        Err(ReprError::InvalidDigit(place))
    } else {
        Err(ReprError::NumberTooLarge(place))
    }
}

fn is_named(name: &Option<String>, wanted: &str) -> (yes: bool)
    ensures
        yes == (name_view(*name) == Some(wanted@)),
{
    match name {
        Some(s) => text::str_eq(s.as_str(), wanted),
        None => false,
    }
}

/// The representation with one more modifier.
pub fn apply_modifier(repr: BytemuckRepr, modifier: ReprModifier) -> (result: Result<
    BytemuckRepr,
    ReprError,
>)
    ensures
        outcome(result) == modified(repr, modifier@),
{
    if is_named(&modifier.name, "packed") {
        match modifier.arg {
            ReprArg::Word => Ok(BytemuckRepr { packed: true, align: repr.align }),
            ReprArg::Digits(digits, literal, place) => match read_number(digits.as_str(), literal) {
                Ok(n) => {
                    if n != 1 {
                        return Err(ReprError::PackedWidth(place));
                    }
                    Ok(BytemuckRepr { packed: true, align: repr.align })
                },
                Err(e) => Err(e),
            },
            ReprArg::NoInteger(e) => Err(ReprError::Syntax(e)),
            ReprArg::Value => Ok(repr),
        }
    } else if is_named(&modifier.name, "align") {
        match modifier.arg {
            ReprArg::Digits(digits, literal, _) => match read_number(digits.as_str(), literal) {
                Ok(n) => Ok(BytemuckRepr { packed: repr.packed, align: Some(n) }),
                Err(e) => Err(e),
            },
            ReprArg::NoInteger(e) => Err(ReprError::Syntax(e)),
            _ => Ok(repr),
        }
    } else {
        Ok(repr)
    }
}

/// The representation with all the modifiers, in order.
pub fn apply_modifiers(repr: BytemuckRepr, modifiers: Vec<ReprModifier>) -> (result: Result<
    BytemuckRepr,
    ReprError,
>)
    ensures
        outcome(result) == all_modified(repr, modifier_views(modifiers@)),
{
    let ghost all = modifier_views(modifiers@);
    let mut rest = modifiers;
    let mut repr_now: BytemuckRepr = repr;
    let ghost mut done: int = 0;
    assert(all.skip(0) =~= all);
    while rest.len() > 0
        invariant
            0 <= done <= all.len(),
            all == modifier_views(modifiers@),
            modifier_views(rest@) == all.skip(done),
            all_modified(repr_now, all.skip(done)) == all_modified(repr, all),
        decreases rest.len(),
    {
        let ghost before = rest@;
        let modifier = rest.remove(0);
        proof {
            assert(modifier_views(before)[0] == modifier@);
            assert(all.skip(done).drop_first() =~= all.skip(done + 1));
            assert(modifier_views(rest@) =~= modifier_views(before).drop_first());
        }
        match apply_modifier(repr_now, modifier) {
            Ok(next) => {
                repr_now = next;
            },
            Err(e) => {
                return Err(e);
            },
        }
        proof {
            done = done + 1;
        }
    }
    Ok(repr_now)
}

/// Reads the arguments of a `repr` attribute, which close at `close`.
pub fn read_modifiers(ts: &TokenStream, close: Span) -> (result: Result<
    Vec<ReprModifier>,
    ReprError,
>)
    ensures
        match result {
            Ok(list) => meta_items(*ts, close) matches Ok(items) && modifier_views(list@)
                == item_modifiers(items),
            Err(e) => meta_items(*ts, close) matches Err(fault) && e@ == ReprFailure::Syntax(fault),
        },
{
    let items = match parse_meta_items(ts, close) {
        Ok(items) => items,
        Err(e) => {
            return Err(ReprError::Syntax(e));
        },
    };
    let ghost views = meta_views(items@);
    let mut items = items;
    let mut modifiers: Vec<ReprModifier> = Vec::new();
    let ghost mut done: int = 0;
    while items.len() > 0
        invariant
            0 <= done <= views.len(),
            items@.len() == views.len() - done,
            forall|k: int| 0 <= k < items@.len() ==> (#[trigger] items@[k])@ == views[done + k],
            modifiers@.len() == done,
            forall|k: int|
                0 <= k < done ==> (#[trigger] modifiers@[k])@ == item_modifier(views[k]),
        decreases items.len(),
    {
        let ghost before = items@;
        let item = items.remove(0);
        proof {
            assert(before[0] == item);
            assert forall|k: int| 0 <= k < items@.len() implies (#[trigger] items@[k])@ == views[
                done + 1 + k] by {
                assert(items@[k] == before[k + 1]);
            }
        }
        let MetaItem { name, args } = item;
        let arg = match args {
            MetaArgs::Word => ReprArg::Word,
            MetaArgs::List(inner, place, end) => match parse_int_literal(&inner, end) {
                Ok((digits, literal)) => ReprArg::Digits(digits, literal, place),
                Err(e) => ReprArg::NoInteger(e),
            },
            MetaArgs::Value => ReprArg::Value,
        };
        modifiers.push(ReprModifier { name, arg });
        proof {
            done = done + 1;
        }
    }
    assert(modifier_views(modifiers@) =~= item_modifiers(views));
    Ok(modifiers)
}

/// The layout modifiers in the `#[repr(...)]` attributes of an item.
pub fn bytemuck_repr_from_attrs(attrs: &[Attribute]) -> (result: Result<BytemuckRepr, ReprError>)
    ensures
        outcome(result) == repr_of((BytemuckRepr { packed: false, align: None }), attrs@),
{
    let mut repr = BytemuckRepr::default();
    let ghost start = repr;
    let mut i: usize = 0;
    assert(attrs@.skip(0) =~= attrs@);
    while i < attrs.len()
        invariant
            i <= attrs@.len(),
            start == (BytemuckRepr { packed: false, align: None }),
            repr_of(repr, attrs@.skip(i as int)) == repr_of(start, attrs@),
        decreases attrs@.len() - i,
    {
        let attr = &attrs[i];
        proof {
            assert(attrs@.skip(i as int)[0] == *attr);
            assert(attrs@.skip(i as int).drop_first() =~= attrs@.skip(i + 1));
        }
        if attr.path().is_ident("repr") {
            let modifiers = match &attr.meta {
                Meta::Path(_, span) => {
                    return Err(ReprError::MissingArguments(attr.inner, *span));
                },
                Meta::NameValue(_, _, span) => {
                    return Err(ReprError::MissingParentheses(attr.inner, *span));
                },
                Meta::List(_, ts, close) => match read_modifiers(ts, *close) {
                    Ok(modifiers) => modifiers,
                    Err(e) => {
                        return Err(e);
                    },
                },
            };
            match apply_modifiers(repr, modifiers) {
                Ok(next) => {
                    repr = next;
                },
                Err(e) => {
                    return Err(e);
                },
            }
        }
        i = i + 1;
    }
    Ok(repr)
}

// ---------------------------------------------------------------------------
// Laws
// ---------------------------------------------------------------------------

/// `packed(1)` says what `packed` says.
pub proof fn law_packed_one_is_packed(repr: BytemuckRepr, literal: Span, place: Span)
    ensures
        modified(
            repr,
            ModifierView {
                name: Some("packed"@),
                arg: ReprArgView::Digits("1"@, literal, place),
            },
        ) == modified(repr, ModifierView { name: Some("packed"@), arg: ReprArgView::Word }),
{
    reveal_strlit("1");
    let digits = "1"@;
    assert(digits.drop_last() =~= Seq::empty());
    assert(text::digits_value(Seq::empty()) == 0);
    assert(text::digits_value(digits) == 1);
}

/// A type that is packed to another width than one byte is rejected, at the
/// place of the modifier.
pub proof fn law_other_packed_widths_are_rejected(
    repr: BytemuckRepr,
    digits: Seq<char>,
    n: nat,
    literal: Span,
    place: Span,
)
    requires
        number(digits, literal) == Ok::<nat, ReprFailure>(n),
        n != 1,
    ensures
        modified(
            repr,
            ModifierView {
                name: Some("packed"@),
                arg: ReprArgView::Digits(digits, literal, place),
            },
        ) == Err::<BytemuckRepr, ReprFailure>(ReprFailure::PackedWidth(place)),
{
}

/// Modifiers other than `packed` and `align`, such as `C`, do not matter.
pub proof fn law_other_modifiers_do_not_matter(repr: BytemuckRepr, modifier: ModifierView)
    requires
        modifier.name != Some("packed"@),
        modifier.name != Some("align"@),
    ensures
        modified(repr, modifier) == Ok::<BytemuckRepr, ReprFailure>(repr),
{
}

/// Attributes other than `repr` do not matter.
pub proof fn law_other_attributes_do_not_matter(repr: BytemuckRepr, attrs: Seq<Attribute>)
    requires
        forall|i: int|
            0 <= i < attrs.len() ==> (#[trigger] attrs[i]).spec_path().ident() != Some("repr"@),
    ensures
        repr_of(repr, attrs) == Ok::<BytemuckRepr, ReprFailure>(repr),
    decreases attrs.len(),
{
    if attrs.len() > 0 {
        assert forall|i: int| 0 <= i < attrs.drop_first().len() implies (
        #[trigger] attrs.drop_first()[i]).spec_path().ident() != Some("repr"@) by {
            assert(attrs.drop_first()[i] == attrs[i + 1]);
        }
        law_other_attributes_do_not_matter(repr, attrs.drop_first());
    }
}

/// What a modifier does, by its name and its argument. `packed` and `packed(1)`
/// set the flag and nothing else, `align(n)` sets the alignment and nothing
/// else; an argument of these that is no number is an error at its place.
pub proof fn law_modifiers_set_what_they_name(
    repr: BytemuckRepr,
    digits: Seq<char>,
    n: nat,
    literal: Span,
    place: Span,
    fault: Fault,
)
    ensures
        ({
            let packed = Some("packed"@);
            let align = Some("align"@);
            let word = ReprArgView::Word;
            let value = ReprArgView::Value;
            let number = ReprArgView::Digits(digits, literal, place);
            let other = ReprArgView::NoInteger(fault);
            let read = text::parsed_number(digits, usize::MAX as nat);
            &&& modified(repr, ModifierView { name: packed, arg: word }) == Ok::<_, ReprFailure>(
                BytemuckRepr { packed: true, align: repr.align },
            )
            &&& modified(repr, ModifierView { name: packed, arg: value }) == Ok::<_, ReprFailure>(
                repr,
            )
            &&& modified(repr, ModifierView { name: align, arg: word }) == Ok::<_, ReprFailure>(
                repr,
            )
            &&& modified(repr, ModifierView { name: align, arg: value }) == Ok::<_, ReprFailure>(
                repr,
            )
            &&& modified(repr, ModifierView { name: packed, arg: other }) == Err::<
                BytemuckRepr,
                _,
            >(ReprFailure::Syntax(fault))
            &&& modified(repr, ModifierView { name: align, arg: other }) == Err::<BytemuckRepr, _>(
                ReprFailure::Syntax(fault),
            )
            &&& read == Some(1nat) ==> modified(repr, ModifierView { name: packed, arg: number })
                == Ok::<_, ReprFailure>(BytemuckRepr { packed: true, align: repr.align })
            &&& read == Some(n) && n != 1 ==> modified(
                repr,
                ModifierView { name: packed, arg: number },
            ) == Err::<BytemuckRepr, _>(ReprFailure::PackedWidth(place))
            &&& read == Some(n) ==> modified(repr, ModifierView { name: align, arg: number })
                == Ok::<_, ReprFailure>(
                BytemuckRepr { packed: repr.packed, align: Some(n as usize) },
            )
            &&& read is None && digits.len() > 0 && (forall|i: int|
                0 <= i < digits.len() ==> '0' <= #[trigger] digits[i] <= '9') ==> modified(
                repr,
                ModifierView { name: packed, arg: number },
            ) == Err::<BytemuckRepr, _>(ReprFailure::NumberTooLarge(literal)) && modified(
                repr,
                ModifierView { name: align, arg: number },
            ) == Err::<BytemuckRepr, _>(ReprFailure::NumberTooLarge(literal))
            &&& !(digits.len() > 0 && (forall|i: int|
                0 <= i < digits.len() ==> '0' <= #[trigger] digits[i] <= '9')) ==> modified(
                repr,
                ModifierView { name: packed, arg: number },
            ) == Err::<BytemuckRepr, _>(ReprFailure::InvalidDigit(literal)) && modified(
                repr,
                ModifierView { name: align, arg: number },
            ) == Err::<BytemuckRepr, _>(ReprFailure::InvalidDigit(literal))
        }),
{
    reveal_strlit("packed");
    reveal_strlit("align");
    assert("packed"@[0] == 'p' && "align"@[0] == 'a');
}

/// Modifiers are applied one after the other; the first that fails decides.
pub proof fn law_modifiers_follow_each_other(
    repr: BytemuckRepr,
    a: Seq<ModifierView>,
    b: Seq<ModifierView>,
    modifier: ModifierView,
)
    ensures
        all_modified(repr, Seq::empty()) == Ok::<_, ReprFailure>(repr),
        all_modified(repr, seq![modifier]) == modified(repr, modifier),
        all_modified(repr, a + b) == match all_modified(repr, a) {
            Ok(next) => all_modified(next, b),
            Err(e) => Err(e),
        },
    decreases a.len(),
{
    assert(seq![modifier].drop_first() =~= Seq::empty());
    assert(all_modified(repr, seq![modifier]) == modified(repr, modifier)) by {
        reveal_with_fuel(all_modified, 2);
    }
    if a.len() == 0 {
        assert(a + b =~= b);
    } else {
        assert((a + b).drop_first() =~= a.drop_first() + b);
        assert((a + b)[0] == a[0]);
        match modified(repr, a[0]) {
            Ok(next) => law_modifiers_follow_each_other(next, a.drop_first(), b, modifier),
            Err(_) => {},
        }
    }
}

/// The modifier says that the type is packed.
pub open spec fn says_packed(modifier: ModifierView) -> bool {
    modifier.name == Some("packed"@) && (modifier.arg is Word || modifier.arg is Digits)
}

/// The modifier gives an alignment.
pub open spec fn says_align(modifier: ModifierView) -> bool {
    modifier.name == Some("align"@) && modifier.arg is Digits
}

/// The type is packed exactly if some modifier says so, and its alignment is
/// what the last modifier that gives one says.
pub proof fn law_the_last_alignment_counts(repr: BytemuckRepr, modifiers: Seq<ModifierView>)
    ensures
        all_modified(repr, modifiers) matches Ok(end) ==> {
            &&& end.packed == (repr.packed || exists|i: int|
                0 <= i < modifiers.len() && says_packed(#[trigger] modifiers[i]))
            &&& (forall|i: int| 0 <= i < modifiers.len() ==> !says_align(#[trigger] modifiers[i]))
                ==> end.align == repr.align
            &&& forall|i: int|
                0 <= i < modifiers.len() && says_align(#[trigger] modifiers[i]) && (forall|k: int|
                    i < k < modifiers.len() ==> !says_align(#[trigger] modifiers[k])) ==> (end.align
                    is Some && text::parsed_number(modifiers[i].arg->Digits_0, usize::MAX as nat)
                    == Some(end.align->0 as nat))
        },
    decreases modifiers.len(),
{
    reveal_strlit("packed");
    reveal_strlit("align");
    assert("packed"@[0] == 'p' && "align"@[0] == 'a');
    if modifiers.len() > 0 && all_modified(repr, modifiers) is Ok {
        let end = all_modified(repr, modifiers)->Ok_0;
        let front = modifiers.drop_last();
        let last = modifiers.last();
        assert(modifiers =~= front + seq![last]);
        law_modifiers_follow_each_other(repr, front, seq![last], last);
        assert(all_modified(repr, front) is Ok);
        let middle = all_modified(repr, front)->Ok_0;
        law_modifiers_follow_each_other(middle, Seq::empty(), Seq::empty(), last);
        law_the_last_alignment_counts(repr, front);
        assert(modified(middle, last) == Ok::<_, ReprFailure>(end));
        assert(end.packed == (middle.packed || says_packed(last)));
        assert(modifiers[modifiers.len() - 1] == last);
        if exists|i: int| 0 <= i < modifiers.len() && says_packed(#[trigger] modifiers[i]) {
            let i = choose|i: int| 0 <= i < modifiers.len() && says_packed(#[trigger] modifiers[i]);
            if i < front.len() {
                assert(says_packed(front[i]));
            }
        }
        if exists|i: int| 0 <= i < front.len() && says_packed(#[trigger] front[i]) {
            let i = choose|i: int| 0 <= i < front.len() && says_packed(#[trigger] front[i]);
            assert(says_packed(modifiers[i]));
        }
        if !says_align(last) {
            assert(end.align == middle.align);
            if forall|i: int| 0 <= i < modifiers.len() ==> !says_align(#[trigger] modifiers[i]) {
                assert forall|i: int| 0 <= i < front.len() implies !says_align(
                    #[trigger] front[i],
                ) by {
                    assert(front[i] == modifiers[i]);
                }
            }
            assert forall|i: int|
                0 <= i < modifiers.len() && says_align(#[trigger] modifiers[i]) && (forall|k: int|
                    i < k < modifiers.len() ==> !says_align(#[trigger] modifiers[k])) implies (
            end.align is Some && text::parsed_number(
                modifiers[i].arg->Digits_0,
                usize::MAX as nat,
            ) == Some(end.align->0 as nat)) by {
                assert(front[i] == modifiers[i]);
                assert forall|k: int| i < k < front.len() implies !says_align(
                    #[trigger] front[k],
                ) by {
                    assert(front[k] == modifiers[k]);
                }
            }
        } else {
            assert forall|i: int|
                0 <= i < modifiers.len() && says_align(#[trigger] modifiers[i]) && (forall|k: int|
                    i < k < modifiers.len() ==> !says_align(#[trigger] modifiers[k])) implies (
            end.align is Some && text::parsed_number(
                modifiers[i].arg->Digits_0,
                usize::MAX as nat,
            ) == Some(end.align->0 as nat)) by {
                if i < front.len() {
                    assert(says_align(modifiers[modifiers.len() - 1]));
                }
            }
        }
    }
}

/// Attributes are read one after the other; the first that fails decides. A
/// `repr` attribute adds its modifiers, and must have arguments.
pub proof fn law_attributes_follow_each_other(
    repr: BytemuckRepr,
    a: Seq<Attribute>,
    b: Seq<Attribute>,
    attr: Attribute,
)
    ensures
        repr_of(repr, Seq::empty()) == Ok::<_, ReprFailure>(repr),
        repr_of(repr, a + b) == match repr_of(repr, a) {
            Ok(next) => repr_of(next, b),
            Err(e) => Err(e),
        },
        ({
            let path = match attr.meta {
                Meta::Path(path, _) => path,
                Meta::List(path, _, _) => path,
                Meta::NameValue(path, _, _) => path,
            };
            let named = !path.leading_colon && path.segments@.len() == 1
                && path.segments@[0].arguments is Absent && path.segments@[0].ident@ == "repr"@;
            repr_of(repr, seq![attr]) == if !named {
                Ok(repr)
            } else {
                match attr.meta {
                    Meta::Path(_, span) => Err(ReprFailure::MissingArguments(attr.inner, span)),
                    Meta::NameValue(_, _, span) => Err(
                        ReprFailure::MissingParentheses(attr.inner, span),
                    ),
                    Meta::List(_, ts, close) => match meta_items(ts, close) {
                        Ok(items) => all_modified(
                            repr,
                            Seq::new(items.len(), |i: int| item_modifier(items[i])),
                        ),
                        Err(fault) => Err(ReprFailure::Syntax(fault)),
                    },
                }
            }
        }),
    decreases a.len(),
{
    assert(seq![attr].drop_first() =~= Seq::empty());
    lemma_one_attribute(repr, attr);
    if a.len() == 0 {
        assert(a + b =~= b);
    } else {
        assert((a + b).drop_first() =~= a.drop_first() + b);
        assert((a + b)[0] == a[0]);
        if a[0].spec_path().ident() == Some("repr"@) {
            match attr_modifiers(a[0]) {
                Ok(modifiers) => match all_modified(repr, modifiers) {
                    Ok(next) => law_attributes_follow_each_other(next, a.drop_first(), b, attr),
                    Err(_) => {},
                },
                Err(_) => {},
            }
        } else {
            law_attributes_follow_each_other(repr, a.drop_first(), b, attr);
        }
    }
}

proof fn lemma_one_attribute(repr: BytemuckRepr, attr: Attribute)
    ensures
        repr_of(repr, seq![attr]) == if attr.spec_path().ident() != Some("repr"@) {
            Ok(repr)
        } else {
            match attr_modifiers(attr) {
                Ok(modifiers) => all_modified(repr, modifiers),
                Err(e) => Err(e),
            }
        },
{
    assert(seq![attr].drop_first() =~= Seq::empty());
    reveal_with_fuel(repr_of, 2);
}

/// An item of a `repr` attribute is a modifier of its name, with the digits
/// between its parentheses, if there are any.
pub proof fn law_items_are_modifiers(item: MetaView)
    ensures
        item_modifier(item).name == item.name,
        item.args is Word ==> item_modifier(item).arg is Word,
        item.args is Value ==> item_modifier(item).arg is Value,
        item.args matches MetaArgs::List(ts, place, close) ==> match int_literal(ts, close) {
            Ok((digits, literal)) => item_modifier(item).arg == ReprArgView::Digits(
                digits,
                literal,
                place,
            ),
            Err(fault) => item_modifier(item).arg == ReprArgView::NoInteger(fault),
        },
{
}

/// Each error points at the place that it carries, and an error of the parser
/// stays what it is.
pub proof fn law_errors_point_at_their_places(inner: bool, span: Span, fault: Fault)
    ensures
        ReprFailure::Syntax(fault).spec_fault() == fault,
        ReprFailure::MissingArguments(inner, span).spec_fault().place == (span, span),
        ReprFailure::MissingParentheses(inner, span).spec_fault().place == (span, span),
        ReprFailure::NumberTooLarge(span).spec_fault().place == (span, span),
        ReprFailure::InvalidDigit(span).spec_fault().place == (span, span),
        ReprFailure::PackedWidth(span).spec_fault().place == (span, span),
{
}

} // verus!
