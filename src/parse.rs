//! The parsers. Each reads a vector of trees from a position and returns what
//! it recognised with the position after it; on failure nothing is consumed,
//! so a caller may try another rule at the same position.
use vstd::prelude::*;
use crate::tokens::{Delimiter, Group, Tok, TokenTree, trees_view, group_trees_view, copy_group, text_is};
use crate::literal::{str_lit_value, string_literal_value};
use crate::quick::{
    Expected, ParseError, NormalError, QuickError, ErrorsChildElementEnum, NormalV, QuickV, EntryV,
    is_punct, is_group, spec_arg_list, spec_quick_tail, spec_quick_fields, quick_keyword,
    spec_parse_quick, spec_parse_normal, spec_parse_entry, spec_parse_entries, ErrorsIdGroup,
    OtherIdGroup, RootElementEnum, RootElementVec, BlockV, OpaqueV, RootV, errors_keyword,
    spec_parse_block, spec_parse_other, spec_parse_root_item, spec_parse_items, spec_parse_root,
};

verus! {

broadcast use group_trees_view;

pub open spec fn quick_result(r: Result<(QuickError, usize), ParseError>) -> Result<(QuickV, int), ParseError> {
    match r {
        Ok((v, q)) => Ok((v@, q as int)),
        Err(e) => Err(e),
    }
}

pub open spec fn normal_result(r: Result<(NormalError, usize), ParseError>) -> Result<(NormalV, int), ParseError> {
    match r {
        Ok((v, q)) => Ok((v@, q as int)),
        Err(e) => Err(e),
    }
}

pub open spec fn entry_result(r: Result<(ErrorsChildElementEnum, usize), ParseError>) -> Result<(EntryV, int), ParseError> {
    match r {
        Ok((v, q)) => Ok((v@, q as int)),
        Err(e) => Err(e),
    }
}

pub open spec fn names_view(v: Seq<String>) -> Seq<Seq<char>> {
    v.map_values(|a: String| a@)
}

fn punct_at(ts: &Vec<TokenTree>, p: usize, c: char) -> (r: bool)
    ensures
        r == (p < ts@.len() && is_punct(trees_view(ts@)[p as int], c)),
{
    p < ts.len() && match &ts[p] {
        TokenTree::Punct(d, _) => *d == c,
        _ => false,
    }
}

fn group_at(ts: &Vec<TokenTree>, p: usize, d: Delimiter) -> (r: Option<&Group>)
    ensures
        r is Some == (p < ts@.len() && is_group(trees_view(ts@)[p as int], d)),
        r matches Some(g) ==> g@ == trees_view(ts@)[p as int],
{
    if p < ts.len() {
        match &ts[p] {
            TokenTree::Group(g) => if g.delimiter == d {
                Some(g)
            } else {
                None
            },
            _ => None,
        }
    } else {
        None
    }
}

fn ident_at(ts: &Vec<TokenTree>, p: usize) -> (r: Option<String>)
    ensures
        match r {
            Some(s) => p < ts@.len() && trees_view(ts@)[p as int] == Tok::Ident(s@),
            None => !(p < ts@.len() && trees_view(ts@)[p as int] is Ident),
        },
{
    if p < ts.len() {
        match &ts[p] {
            TokenTree::Ident(s) => Some(s.clone()),
            _ => None,
        }
    } else {
        None
    }
}

/// The identifiers of a comma-separated list (one trailing comma allowed).
pub fn parse_arg_list(ts: &Vec<TokenTree>) -> (r: Option<Vec<String>>)
    ensures
        match r {
            Some(v) => spec_arg_list(trees_view(ts@), 0) == Some(names_view(v@)),
            None => spec_arg_list(trees_view(ts@), 0) is None,
        },
{
    let ghost tv = trees_view(ts@);
    let mut out: Vec<String> = Vec::new();
    let mut i: usize = 0;
    while i < ts.len()
        invariant
            tv == trees_view(ts@),
            i <= ts@.len(),
            spec_arg_list(tv, 0) == match spec_arg_list(tv, i as int) {
                Some(rest) => Some(names_view(out@) + rest),
                None => None,
            },
        decreases ts@.len() - i,
    {
        let a = match ident_at(ts, i) {
            Some(a) => a,
            None => return None,
        };
        let ghost before = names_view(out@);
        out.push(a);
        assert(names_view(out@) =~= before.push(a@));
        if i + 1 == ts.len() {
            assert(names_view(out@) =~= before + seq![a@] + Seq::<Seq<char>>::empty());
            i = i + 1;
        } else {
            if !punct_at(ts, i + 1, ',') {
                return None;
            }
            proof {
                match spec_arg_list(tv, i + 2) {
                    Some(rest) => assert(before + (seq![a@] + rest) =~= names_view(out@) + rest),
                    None => {},
                }
            }
            i = i + 2;
        }
    }
    assert(names_view(out@) + Seq::<Seq<char>>::empty() =~= names_view(out@));
    Some(out)
}

/// What follows the description inside `quick!( .. )`.
fn parse_quick_tail(ts: &Vec<TokenTree>, q: usize) -> (r: Result<Vec<String>, Expected>)
    ensures
        match r {
            Ok(v) => spec_quick_tail(trees_view(ts@), q as int) == Ok::<Seq<Seq<char>>, Expected>(names_view(v@)),
            Err(e) => spec_quick_tail(trees_view(ts@), q as int) == Err::<Seq<Seq<char>>, Expected>(e),
        },
{
    let n = ts.len();
    if q >= n {
        let v: Vec<String> = Vec::new();
        assert(names_view(v@) =~= Seq::empty());
        return Ok(v);
    }
    if !punct_at(ts, q, ',') {
        return Err(Expected::EndOfGroup);
    }
    if q + 1 == n {
        let v: Vec<String> = Vec::new();
        assert(names_view(v@) =~= Seq::empty());
        return Ok(v);
    }
    let g = match group_at(ts, q + 1, Delimiter::Parenthesis) {
        Some(g) => g,
        None => return Err(Expected::EndOfGroup),
    };
    match parse_arg_list(&g.stream) {
        None => Err(Expected::ArgumentList),
        Some(args) => {
            if q + 2 == n || (q + 3 == n && punct_at(ts, q + 2, ',')) {
                Ok(args)
            } else {
                Err(Expected::EndOfGroup)
            }
        },
    }
}

/// The fields of a shorthand entry from the tokens inside its parentheses.
pub fn parse_quick_fields(ts: &Vec<TokenTree>) -> (r: Result<QuickError, Expected>)
    ensures
        match r {
            Ok(v) => spec_quick_fields(trees_view(ts@)) == Ok::<QuickV, Expected>(v@),
            Err(e) => spec_quick_fields(trees_view(ts@)) == Err::<QuickV, Expected>(e),
        },
{
    let name = match ident_at(ts, 0) {
        Some(s) => s,
        None => return Err(Expected::Identifier),
    };
    if !punct_at(ts, 1, ',') {
        return Err(Expected::Comma);
    }
    if ts.len() < 3 {
        return Err(Expected::StringLiteral);
    }
    let desc = match &ts[2] {
        TokenTree::Literal(s) => s.clone(),
        _ => return Err(Expected::StringLiteral),
    };
    let value = match string_literal_value(&desc) {
        Some(v) => v,
        None => return Err(Expected::StringLiteral),
    };
    match parse_quick_tail(ts, 3) {
        Ok(args) => Ok(QuickError { err_ident: name, desc, desc_value: value, inner_args: args }),
        Err(e) => Err(e),
    }
}

impl QuickError {
    /// A shorthand entry at position `p`. Once `quick !` has matched, every
    /// failure is an `InvalidQuick`.
    pub fn parse(ts: &Vec<TokenTree>, p: usize) -> (r: Result<(QuickError, usize), ParseError>)
        ensures
            quick_result(r) == spec_parse_quick(trees_view(ts@), p as int),
    {
        let _n = ts.len();
        let is_kw = match ident_at(ts, p) {
            Some(s) => text_is(&s, "quick"),
            None => return Err(ParseError::Mismatch(Expected::ShorthandKeyword)),
        };
        proof {
            reveal_strlit("quick");
            assert("quick"@ =~= quick_keyword());
        }
        if !is_kw {
            return Err(ParseError::Mismatch(Expected::ShorthandKeyword));
        }
        if !punct_at(ts, p + 1, '!') {
            return Err(ParseError::Mismatch(Expected::Bang));
        }
        let g = match group_at(ts, p + 2, Delimiter::Parenthesis) {
            Some(g) => g,
            None => return Err(ParseError::InvalidQuick(Expected::Parentheses)),
        };
        match parse_quick_fields(&g.stream) {
            Ok(q) => Ok((q, p + 3)),
            Err(e) => Err(ParseError::InvalidQuick(e)),
        }
    }
}

impl NormalError {
    /// A canonical entry at position `p`.
    pub fn parse(ts: &Vec<TokenTree>, p: usize) -> (r: Result<(NormalError, usize), ParseError>)
        ensures
            normal_result(r) == spec_parse_normal(trees_view(ts@), p as int),
    {
        let _n = ts.len();
        let name = match ident_at(ts, p) {
            Some(s) => s,
            None => return Err(ParseError::Mismatch(Expected::Identifier)),
        };
        if let Some(a) = group_at(ts, p + 1, Delimiter::Parenthesis) {
            match group_at(ts, p + 2, Delimiter::Brace) {
                Some(b) => {
                    let args = copy_group(a);
                    let body = copy_group(b);
                    Ok((NormalError { ident: name, args: Some(args), body }, p + 3))
                },
                None => Err(ParseError::Mismatch(Expected::BraceGroup)),
            }
        } else if let Some(b) = group_at(ts, p + 1, Delimiter::Brace) {
            let body = copy_group(b);
            Ok((NormalError { ident: name, args: None, body }, p + 2))
        } else {
            Err(ParseError::Mismatch(Expected::Group))
        }
    }
}

pub open spec fn entries_view(v: Seq<ErrorsChildElementEnum>) -> Seq<EntryV> {
    v.map_values(|e: ErrorsChildElementEnum| e@)
}

pub open spec fn roots_view(v: Seq<RootElementEnum>) -> Seq<RootV> {
    v.map_values(|r: RootElementEnum| r@)
}

/// An entry that parses ends after where it starts and within the input.
pub proof fn lemma_entry_advances(ts: Seq<Tok>, p: int)
    requires
        spec_parse_entry(ts, p) is Ok,
    ensures
        p < spec_parse_entry(ts, p)->Ok_0.1 <= ts.len(),
{
}

/// A top-level item that parses ends after where it starts and within the input.
pub proof fn lemma_root_item_advances(ts: Seq<Tok>, p: int)
    requires
        spec_parse_root_item(ts, p) is Ok,
    ensures
        p < spec_parse_root_item(ts, p)->Ok_0.1 <= ts.len(),
{
}

impl ErrorsChildElementEnum {
    /// One entry: a shorthand entry if one is there, else a canonical one. A
    /// malformed shorthand entry is reported, never tried as canonical.
    pub fn parse(ts: &Vec<TokenTree>, p: usize) -> (r: Result<(ErrorsChildElementEnum, usize), ParseError>)
        ensures
            entry_result(r) == spec_parse_entry(trees_view(ts@), p as int),
    {
        match QuickError::parse(ts, p) {
            Ok((q, r)) => return Ok((ErrorsChildElementEnum::QuickError(q), r)),
            Err(ParseError::Mismatch(_)) => {},
            Err(e) => return Err(e),
        }
        match NormalError::parse(ts, p) {
            Ok((n, r)) => Ok((ErrorsChildElementEnum::NormalError(n), r)),
            Err(_) => Err(ParseError::Mismatch(Expected::Entry)),
        }
    }
}

/// The entries from the start of `ts` to its end.
pub fn parse_entries(ts: &Vec<TokenTree>) -> (r: Result<Vec<ErrorsChildElementEnum>, ParseError>)
    ensures
        match r {
            Ok(v) => spec_parse_entries(trees_view(ts@), 0) == Ok::<Seq<EntryV>, ParseError>(entries_view(v@)),
            Err(e) => spec_parse_entries(trees_view(ts@), 0) == Err::<Seq<EntryV>, ParseError>(e),
        },
{
    let ghost tv = trees_view(ts@);
    let mut out: Vec<ErrorsChildElementEnum> = Vec::new();
    let mut i: usize = 0;
    while i < ts.len()
        invariant
            tv == trees_view(ts@),
            i <= ts@.len(),
            spec_parse_entries(tv, 0) == match spec_parse_entries(tv, i as int) {
                Ok(rest) => Ok(entries_view(out@) + rest),
                Err(e) => Err(e),
            },
        decreases ts@.len() - i,
    {
        match ErrorsChildElementEnum::parse(ts, i) {
            Ok((e, q)) => {
                proof {
                    lemma_entry_advances(tv, i as int);
                }
                let ghost before = entries_view(out@);
                let ghost ev = e@;
                out.push(e);
                assert(entries_view(out@) =~= before.push(ev));
                proof {
                    match spec_parse_entries(tv, q as int) {
                        Ok(rest) => assert(before + (seq![ev] + rest) =~= entries_view(out@) + rest),
                        Err(_) => {},
                    }
                }
                i = q;
            },
            Err(e) => return Err(e),
        }
    }
    assert(entries_view(out@) + Seq::<EntryV>::empty() =~= entries_view(out@));
    Ok(out)
}

impl ErrorsIdGroup {
    /// The `errors` block at position `p`.
    pub fn parse(ts: &Vec<TokenTree>, p: usize) -> (r: Result<(ErrorsIdGroup, usize), ParseError>)
        ensures
            match r {
                Ok((v, q)) => spec_parse_block(trees_view(ts@), p as int) == Ok::<(BlockV, int), ParseError>((v@, q as int)),
                Err(e) => spec_parse_block(trees_view(ts@), p as int) == Err::<(BlockV, int), ParseError>(e),
            },
    {
        let _n = ts.len();
        let name = match ident_at(ts, p) {
            Some(s) => s,
            None => return Err(ParseError::Mismatch(Expected::BlockKeyword)),
        };
        let is_kw = text_is(&name, "errors");
        proof {
            reveal_strlit("errors");
            assert("errors"@ =~= errors_keyword());
        }
        if !is_kw {
            return Err(ParseError::Mismatch(Expected::BlockKeyword));
        }
        let g = match group_at(ts, p + 1, Delimiter::Brace) {
            Some(g) => g,
            None => return Err(ParseError::Mismatch(Expected::BraceGroup)),
        };
        if g.stream.len() == 0 {
            return Err(ParseError::EmptyBlock);
        }
        match parse_entries(&g.stream) {
            Ok(items) => {
                let b = ErrorsIdGroup { ident: name, items };
                assert(b@.entries =~= entries_view(b.items@));
                Ok((b, p + 2))
            },
            Err(e) => Err(e),
        }
    }
}

impl OtherIdGroup {
    /// Any other item at position `p`: an identifier and, if one follows, a
    /// group with visible delimiters.
    pub fn parse(ts: &Vec<TokenTree>, p: usize) -> (r: Result<(OtherIdGroup, usize), ParseError>)
        ensures
            match r {
                Ok((v, q)) => spec_parse_other(trees_view(ts@), p as int) == Ok::<(OpaqueV, int), ParseError>((v@, q as int)),
                Err(e) => spec_parse_other(trees_view(ts@), p as int) == Err::<(OpaqueV, int), ParseError>(e),
            },
    {
        let n = ts.len();
        let name = match ident_at(ts, p) {
            Some(s) => s,
            None => return Err(ParseError::Mismatch(Expected::Identifier)),
        };
        if p + 1 < n {
            match &ts[p + 1] {
                TokenTree::Group(g) => if g.delimiter != Delimiter::Invisible {
                    let body = copy_group(g);
                    return Ok((OtherIdGroup { ident: name, body: Some(body) }, p + 2));
                },
                _ => {},
            }
        }
        Ok((OtherIdGroup { ident: name, body: None }, p + 1))
    }
}

impl RootElementEnum {
    /// One top-level item: the `errors` block if it is there, else any other
    /// item. A malformed shorthand entry or an empty block is reported.
    pub fn parse(ts: &Vec<TokenTree>, p: usize) -> (r: Result<(RootElementEnum, usize), ParseError>)
        ensures
            match r {
                Ok((v, q)) => spec_parse_root_item(trees_view(ts@), p as int) == Ok::<(RootV, int), ParseError>((v@, q as int)),
                Err(e) => spec_parse_root_item(trees_view(ts@), p as int) == Err::<(RootV, int), ParseError>(e),
            },
    {
        match ErrorsIdGroup::parse(ts, p) {
            Ok((b, q)) => Ok((RootElementEnum::ErrorsIdGroup(b), q)),
            Err(ParseError::Mismatch(_)) => match OtherIdGroup::parse(ts, p) {
                Ok((o, q)) => Ok((RootElementEnum::OtherIdGroup(o), q)),
                Err(e) => Err(e),
            },
            Err(e) => Err(e),
        }
    }
}

impl RootElementVec {
    /// The whole input: one top-level item or more, up to its end.
    pub fn parse(ts: &Vec<TokenTree>) -> (r: Result<RootElementVec, ParseError>)
        ensures
            match r {
                Ok(v) => spec_parse_root(trees_view(ts@)) == Ok::<Seq<RootV>, ParseError>(v@),
                Err(e) => spec_parse_root(trees_view(ts@)) == Err::<Seq<RootV>, ParseError>(e),
            },
    {
        if ts.len() == 0 {
            return Err(ParseError::EmptyInput);
        }
        let ghost tv = trees_view(ts@);
        let mut out: Vec<RootElementEnum> = Vec::new();
        let mut i: usize = 0;
        while i < ts.len()
            invariant
                tv == trees_view(ts@),
                i <= ts@.len(),
                spec_parse_items(tv, 0) == match spec_parse_items(tv, i as int) {
                    Ok(rest) => Ok(roots_view(out@) + rest),
                    Err(e) => Err(e),
                },
            decreases ts@.len() - i,
        {
            match RootElementEnum::parse(ts, i) {
                Ok((e, q)) => {
                    proof {
                        lemma_root_item_advances(tv, i as int);
                    }
                    let ghost before = roots_view(out@);
                    let ghost ev = e@;
                    out.push(e);
                    assert(roots_view(out@) =~= before.push(ev));
                    proof {
                        match spec_parse_items(tv, q as int) {
                            Ok(rest) => assert(before + (seq![ev] + rest) =~= roots_view(out@) + rest),
                            Err(_) => {},
                        }
                    }
                    i = q;
                },
                Err(e) => return Err(e),
            }
        }
        assert(roots_view(out@) + Seq::<RootV>::empty() =~= roots_view(out@));
        let r = RootElementVec { items: out };
        assert(r@ =~= roots_view(r.items@));
        Ok(r)
    }
}

} // verus!
