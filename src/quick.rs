//! The grammar of an `error_chain!` body with `quick!` shorthand entries:
//! the parsed tree, its view, and the grammar as spec functions.
use vstd::prelude::*;
use crate::tokens::{Delimiter, Group, Tok, TokenTree, trees_view, group_trees_view};
use crate::literal::str_lit_value;

verus! {

broadcast use group_trees_view;

/// What a grammar rule expected where it failed.
#[derive(Clone, Copy, Debug, PartialEq, Eq, Structural)]
pub enum Expected {
    Identifier,
    ShorthandKeyword,
    Bang,
    Parentheses,
    Comma,
    StringLiteral,
    ArgumentList,
    EndOfGroup,
    Group,
    BraceGroup,
    BlockKeyword,
    Entry,
}

/// A parse failure.
#[derive(Clone, Copy, Debug, PartialEq, Eq, Structural)]
pub enum ParseError {
    /// The input does not match a rule; the next alternative may be tried.
    Mismatch(Expected),
    /// A `quick!` entry was begun and is malformed; no alternative is tried.
    InvalidQuick(Expected),
    /// An `errors` block with nothing in its braces.
    EmptyBlock,
    /// No input at all.
    EmptyInput,
}

pub open spec fn expected_text(e: Expected) -> Seq<char> {
    match e {
        Expected::Identifier => "expected identifier"@,
        Expected::ShorthandKeyword => "expected `quick`"@,
        Expected::Bang => "expected `!`"@,
        Expected::Parentheses => "expected parentheses"@,
        Expected::Comma => "expected `,`"@,
        Expected::StringLiteral => "expected string literal"@,
        Expected::ArgumentList => "expected a comma-separated list of identifiers"@,
        Expected::EndOfGroup => "unexpected token"@,
        Expected::Group => "expected a parenthesized or braced group"@,
        Expected::BraceGroup => "expected a braced group"@,
        Expected::BlockKeyword => "expected `errors`"@,
        Expected::Entry => "Could not parse as an entry of the errors block"@,
    }
}

/// The headline of a malformed shorthand entry.
pub open spec fn invalid_quick_text() -> Seq<char> {
    "Invalid 'quick!()' macro: "@
}

/// The message of each error; that of a malformed shorthand entry names the
/// shorthand and then what was wrong inside it.
pub open spec fn message_text(e: ParseError) -> Seq<char> {
    match e {
        ParseError::Mismatch(x) => expected_text(x),
        ParseError::InvalidQuick(x) => invalid_quick_text() + expected_text(x),
        ParseError::EmptyBlock => "Unexpected end of input: empty `errors` block"@,
        ParseError::EmptyInput => "Unexpected end of input"@,
    }
}

impl Expected {
    pub fn text(&self) -> (r: &'static str)
        ensures
            r@ == expected_text(*self),
    {
        match self {
            Expected::Identifier => "expected identifier",
            Expected::ShorthandKeyword => "expected `quick`",
            Expected::Bang => "expected `!`",
            Expected::Parentheses => "expected parentheses",
            Expected::Comma => "expected `,`",
            Expected::StringLiteral => "expected string literal",
            Expected::ArgumentList => "expected a comma-separated list of identifiers",
            Expected::EndOfGroup => "unexpected token",
            Expected::Group => "expected a parenthesized or braced group",
            Expected::BraceGroup => "expected a braced group",
            Expected::BlockKeyword => "expected `errors`",
            Expected::Entry => "Could not parse as an entry of the errors block",
        }
    }
}

impl ParseError {
    /// Whether this error ends the whole parse rather than letting the next
    /// rule be tried.
    pub fn is_fatal(&self) -> (r: bool)
        ensures
            r == !(*self is Mismatch),
    {
        !matches!(self, ParseError::Mismatch(_))
    }

    /// A message for the user.
    pub fn message(&self) -> (r: String)
        ensures
            r@ == message_text(*self),
    {
        match self {
            ParseError::Mismatch(x) => String::from_str(x.text()),
            ParseError::InvalidQuick(x) => {
                let mut m = String::from_str("Invalid 'quick!()' macro: ");
                m.append(x.text());
                m
            },
            ParseError::EmptyBlock => String::from_str("Unexpected end of input: empty `errors` block"),
            ParseError::EmptyInput => String::from_str("Unexpected end of input"),
        }
    }
}

/// A canonical entry: `Name (params) { body }` or `Name { body }`.
#[derive(Debug)]
pub struct NormalError {
    pub ident: String,
    pub args: Option<Group>,
    pub body: Group,
}

/// A shorthand entry `quick!(Name, "description", (a, b))`.
#[derive(Debug)]
pub struct QuickError {
    pub err_ident: String,
    /// The description literal, by its source text.
    pub desc: String,
    /// The text that the description literal denotes.
    pub desc_value: String,
    pub inner_args: Vec<String>,
}

/// An entry of the `errors` block.
#[derive(Debug)]
pub enum ErrorsChildElementEnum {
    QuickError(QuickError),
    NormalError(NormalError),
}

/// The `errors` block.
#[derive(Debug)]
pub struct ErrorsIdGroup {
    pub ident: String,
    pub items: Vec<ErrorsChildElementEnum>,
}

/// Any other top-level item: a name and an optional group, kept as they are.
#[derive(Debug)]
pub struct OtherIdGroup {
    pub ident: String,
    pub body: Option<Group>,
}

/// A top-level item.
#[derive(Debug)]
pub enum RootElementEnum {
    ErrorsIdGroup(ErrorsIdGroup),
    OtherIdGroup(OtherIdGroup),
}

/// The whole input, item by item.
#[derive(Debug)]
pub struct RootElementVec {
    pub items: Vec<RootElementEnum>,
}

pub struct NormalV {
    pub name: Seq<char>,
    pub params: Option<Tok>,
    pub body: Tok,
}

pub struct QuickV {
    pub name: Seq<char>,
    pub desc: Seq<char>,
    pub value: Seq<char>,
    pub args: Seq<Seq<char>>,
}

pub enum EntryV {
    Quick(QuickV),
    Normal(NormalV),
}

pub struct BlockV {
    pub name: Seq<char>,
    pub entries: Seq<EntryV>,
}

pub struct OpaqueV {
    pub name: Seq<char>,
    pub body: Option<Tok>,
}

pub enum RootV {
    Block(BlockV),
    Opaque(OpaqueV),
}

pub open spec fn opt_group_view(g: Option<Group>) -> Option<Tok> {
    match g {
        Some(g) => Some(g@),
        None => None,
    }
}

impl View for NormalError {
    type V = NormalV;

    open spec fn view(&self) -> NormalV {
        NormalV { name: self.ident@, params: opt_group_view(self.args), body: self.body@ }
    }
}

impl View for QuickError {
    type V = QuickV;

    open spec fn view(&self) -> QuickV {
        QuickV {
            name: self.err_ident@,
            desc: self.desc@,
            value: self.desc_value@,
            args: self.inner_args@.map_values(|a: String| a@),
        }
    }
}

impl View for ErrorsChildElementEnum {
    type V = EntryV;

    open spec fn view(&self) -> EntryV {
        match self {
            ErrorsChildElementEnum::QuickError(q) => EntryV::Quick(q@),
            ErrorsChildElementEnum::NormalError(n) => EntryV::Normal(n@),
        }
    }
}

impl View for ErrorsIdGroup {
    type V = BlockV;

    open spec fn view(&self) -> BlockV {
        BlockV { name: self.ident@, entries: self.items@.map_values(|e: ErrorsChildElementEnum| e@) }
    }
}

impl View for OtherIdGroup {
    type V = OpaqueV;

    open spec fn view(&self) -> OpaqueV {
        OpaqueV { name: self.ident@, body: opt_group_view(self.body) }
    }
}

impl View for RootElementEnum {
    type V = RootV;

    open spec fn view(&self) -> RootV {
        match self {
            RootElementEnum::ErrorsIdGroup(b) => RootV::Block(b@),
            RootElementEnum::OtherIdGroup(o) => RootV::Opaque(o@),
        }
    }
}

impl View for RootElementVec {
    type V = Seq<RootV>;

    open spec fn view(&self) -> Seq<RootV> {
        self.items@.map_values(|r: RootElementEnum| r@)
    }
}

pub open spec fn is_punct(t: Tok, c: char) -> bool {
    t matches Tok::Punct(d, _) && d == c
}

pub open spec fn is_word(t: Tok, w: Seq<char>) -> bool {
    t matches Tok::Ident(s) && s == w
}

pub open spec fn is_group(t: Tok, d: Delimiter) -> bool {
    t matches Tok::Group(e, _) && e == d
}

pub open spec fn group_body(t: Tok) -> Seq<Tok> {
    match t {
        Tok::Group(_, b) => b,
        _ => Seq::empty(),
    }
}

pub open spec fn word(t: Tok) -> Seq<char> {
    match t {
        Tok::Ident(s) => s,
        Tok::Literal(s) => s,
        _ => Seq::empty(),
    }
}

/// A comma-separated list of identifiers from position `i` to the end, with
/// at most one trailing comma; `None` where the tokens are no such list.
pub open spec fn spec_arg_list(ts: Seq<Tok>, i: int) -> Option<Seq<Seq<char>>>
    decreases ts.len() - i,
{
    if i < 0 || i >= ts.len() {
        Some(Seq::empty())
    } else if !(ts[i] is Ident) {
        None
    } else if i + 1 == ts.len() {
        Some(seq![word(ts[i])])
    } else if !is_punct(ts[i + 1], ',') {
        None
    } else {
        match spec_arg_list(ts, i + 2) {
            Some(rest) => Some(seq![word(ts[i])] + rest),
            None => None,
        }
    }
}

/// What follows the description inside `quick!( .. )`, from position `q`:
/// nothing, a comma, or a comma, an argument list in parentheses and at most
/// one more comma.
pub open spec fn spec_quick_tail(ts: Seq<Tok>, q: int) -> Result<Seq<Seq<char>>, Expected> {
    if q >= ts.len() {
        Ok(Seq::empty())
    } else if !is_punct(ts[q], ',') {
        Err(Expected::EndOfGroup)
    } else if q + 1 == ts.len() {
        Ok(Seq::empty())
    } else if !is_group(ts[q + 1], Delimiter::Parenthesis) {
        Err(Expected::EndOfGroup)
    } else {
        match spec_arg_list(group_body(ts[q + 1]), 0) {
            None => Err(Expected::ArgumentList),
            Some(args) => if q + 2 == ts.len() || (q + 3 == ts.len() && is_punct(ts[q + 2], ',')) {
                Ok(args)
            } else {
                Err(Expected::EndOfGroup)
            },
        }
    }
}

/// The fields of a shorthand entry from the tokens inside its parentheses.
pub open spec fn spec_quick_fields(ts: Seq<Tok>) -> Result<QuickV, Expected> {
    if ts.len() < 1 || !(ts[0] is Ident) {
        Err(Expected::Identifier)
    } else if ts.len() < 2 || !is_punct(ts[1], ',') {
        Err(Expected::Comma)
    } else if ts.len() < 3 || !(ts[2] is Literal) || str_lit_value(word(ts[2])) is None {
        Err(Expected::StringLiteral)
    } else {
        match spec_quick_tail(ts, 3) {
            Ok(args) => Ok(
                QuickV {
                    name: word(ts[0]),
                    desc: word(ts[2]),
                    value: str_lit_value(word(ts[2]))->Some_0,
                    args,
                },
            ),
            Err(e) => Err(e),
        }
    }
}

pub open spec fn quick_keyword() -> Seq<char> {
    seq!['q', 'u', 'i', 'c', 'k']
}

pub open spec fn errors_keyword() -> Seq<char> {
    seq!['e', 'r', 'r', 'o', 'r', 's']
}

/// A shorthand entry at position `p`, and the position after it. Once `quick`
/// and `!` have matched, every failure is an `InvalidQuick`.
pub open spec fn spec_parse_quick(ts: Seq<Tok>, p: int) -> Result<(QuickV, int), ParseError> {
    if !(0 <= p < ts.len() && is_word(ts[p], quick_keyword())) {
        Err(ParseError::Mismatch(Expected::ShorthandKeyword))
    } else if !(p + 1 < ts.len() && is_punct(ts[p + 1], '!')) {
        Err(ParseError::Mismatch(Expected::Bang))
    } else if !(p + 2 < ts.len() && is_group(ts[p + 2], Delimiter::Parenthesis)) {
        Err(ParseError::InvalidQuick(Expected::Parentheses))
    } else {
        match spec_quick_fields(group_body(ts[p + 2])) {
            Ok(q) => Ok((q, p + 3)),
            Err(e) => Err(ParseError::InvalidQuick(e)),
        }
    }
}

/// A canonical entry at position `p`, and the position after it.
pub open spec fn spec_parse_normal(ts: Seq<Tok>, p: int) -> Result<(NormalV, int), ParseError> {
    if !(0 <= p < ts.len() && ts[p] is Ident) {
        Err(ParseError::Mismatch(Expected::Identifier))
    } else if p + 1 < ts.len() && is_group(ts[p + 1], Delimiter::Parenthesis) {
        if p + 2 < ts.len() && is_group(ts[p + 2], Delimiter::Brace) {
            Ok((NormalV { name: word(ts[p]), params: Some(ts[p + 1]), body: ts[p + 2] }, p + 3))
        } else {
            Err(ParseError::Mismatch(Expected::BraceGroup))
        }
    } else if p + 1 < ts.len() && is_group(ts[p + 1], Delimiter::Brace) {
        Ok((NormalV { name: word(ts[p]), params: None, body: ts[p + 1] }, p + 2))
    } else {
        Err(ParseError::Mismatch(Expected::Group))
    }
}

/// One entry of the block: a shorthand entry if one is there, else a
/// canonical one; a malformed shorthand entry is not tried as canonical.
pub open spec fn spec_parse_entry(ts: Seq<Tok>, p: int) -> Result<(EntryV, int), ParseError> {
    match spec_parse_quick(ts, p) {
        Ok((q, r)) => Ok((EntryV::Quick(q), r)),
        Err(ParseError::Mismatch(_)) => match spec_parse_normal(ts, p) {
            Ok((n, r)) => Ok((EntryV::Normal(n), r)),
            Err(_) => Err(ParseError::Mismatch(Expected::Entry)),
        },
        Err(e) => Err(e),
    }
}

/// The entries from position `p` to the end.
pub open spec fn spec_parse_entries(ts: Seq<Tok>, p: int) -> Result<Seq<EntryV>, ParseError>
    decreases ts.len() - p,
{
    if p < 0 || p >= ts.len() {
        Ok(Seq::empty())
    } else {
        match spec_parse_entry(ts, p) {
            Err(e) => Err(e),
            Ok((e, q)) => if q <= p || q > ts.len() {
                Ok(Seq::empty())
            } else {
                match spec_parse_entries(ts, q) {
                    Ok(rest) => Ok(seq![e] + rest),
                    Err(err) => Err(err),
                }
            },
        }
    }
}

/// The `errors` block at position `p`: the keyword, then a brace group
/// holding at least one entry.
pub open spec fn spec_parse_block(ts: Seq<Tok>, p: int) -> Result<(BlockV, int), ParseError> {
    if !(0 <= p < ts.len() && is_word(ts[p], errors_keyword())) {
        Err(ParseError::Mismatch(Expected::BlockKeyword))
    } else if !(p + 1 < ts.len() && is_group(ts[p + 1], Delimiter::Brace)) {
        Err(ParseError::Mismatch(Expected::BraceGroup))
    } else if group_body(ts[p + 1]).len() == 0 {
        Err(ParseError::EmptyBlock)
    } else {
        match spec_parse_entries(group_body(ts[p + 1]), 0) {
            Ok(es) => Ok((BlockV { name: word(ts[p]), entries: es }, p + 2)),
            Err(e) => Err(e),
        }
    }
}

/// Any other item at position `p`: an identifier and, if one follows, a
/// visibly delimited group.
pub open spec fn spec_parse_other(ts: Seq<Tok>, p: int) -> Result<(OpaqueV, int), ParseError> {
    if !(0 <= p < ts.len() && ts[p] is Ident) {
        Err(ParseError::Mismatch(Expected::Identifier))
    } else if p + 1 < ts.len() && ts[p + 1] is Group && !is_group(ts[p + 1], Delimiter::Invisible) {
        Ok((OpaqueV { name: word(ts[p]), body: Some(ts[p + 1]) }, p + 2))
    } else {
        Ok((OpaqueV { name: word(ts[p]), body: None }, p + 1))
    }
}

/// One top-level item: the `errors` block if it is there, else any other item.
pub open spec fn spec_parse_root_item(ts: Seq<Tok>, p: int) -> Result<(RootV, int), ParseError> {
    match spec_parse_block(ts, p) {
        Ok((b, q)) => Ok((RootV::Block(b), q)),
        Err(ParseError::Mismatch(_)) => match spec_parse_other(ts, p) {
            Ok((o, q)) => Ok((RootV::Opaque(o), q)),
            Err(e) => Err(e),
        },
        Err(e) => Err(e),
    }
}

/// The top-level items from position `p` to the end.
pub open spec fn spec_parse_items(ts: Seq<Tok>, p: int) -> Result<Seq<RootV>, ParseError>
    decreases ts.len() - p,
{
    if p < 0 || p >= ts.len() {
        Ok(Seq::empty())
    } else {
        match spec_parse_root_item(ts, p) {
            Err(e) => Err(e),
            Ok((r, q)) => if q <= p || q > ts.len() {
                Ok(Seq::empty())
            } else {
                match spec_parse_items(ts, q) {
                    Ok(rest) => Ok(seq![r] + rest),
                    Err(err) => Err(err),
                }
            },
        }
    }
}

/// The whole input: at least one top-level item.
pub open spec fn spec_parse_root(ts: Seq<Tok>) -> Result<Seq<RootV>, ParseError> {
    if ts.len() == 0 {
        Err(ParseError::EmptyInput)
    } else {
        spec_parse_items(ts, 0)
    }
}

} // verus!
