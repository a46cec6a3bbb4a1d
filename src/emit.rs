//! Writing the rewritten tree back out as token trees, and the whole
//! expansion from input trees to the `error_chain!` invocation.
use vstd::prelude::*;
use crate::tokens::{Delimiter, Group, Tok, TokenTree, trees_view, group_trees_view, push_tree, word_tree, copy_group};
use crate::quick::{
    EntryV, ErrorsChildElementEnum, ErrorsIdGroup, NormalError, NormalV, OtherIdGroup, ParseError,
    RootElementEnum, RootElementVec, RootV, spec_parse_root,
};
use crate::parse::entries_view;
use crate::rewrite::{canonical_entries, canonical_roots, spec_rewrite_roots};

verus! {

broadcast use group_trees_view;

pub open spec fn opt_tok(t: Option<Tok>) -> Seq<Tok> {
    match t {
        Some(g) => seq![g],
        None => Seq::empty(),
    }
}

pub open spec fn normal_tokens(n: NormalV) -> Seq<Tok> {
    seq![Tok::Ident(n.name)] + opt_tok(n.params) + seq![n.body]
}

pub open spec fn entry_tokens(e: EntryV) -> Seq<Tok> {
    match e {
        EntryV::Normal(n) => normal_tokens(n),
        EntryV::Quick(_) => Seq::empty(),
    }
}

/// The tokens of the first `n` entries, in order.
pub open spec fn entries_tokens(es: Seq<EntryV>, n: int) -> Seq<Tok>
    decreases n,
{
    if n <= 0 {
        Seq::empty()
    } else {
        entries_tokens(es, n - 1) + entry_tokens(es[n - 1])
    }
}

pub open spec fn root_tokens(r: RootV) -> Seq<Tok> {
    match r {
        RootV::Block(b) => seq![
            Tok::Ident(b.name),
            Tok::Group(Delimiter::Brace, entries_tokens(b.entries, b.entries.len() as int)),
        ],
        RootV::Opaque(o) => seq![Tok::Ident(o.name)] + opt_tok(o.body),
    }
}

/// The tokens of the first `n` top-level items, in order.
pub open spec fn roots_tokens(rs: Seq<RootV>, n: int) -> Seq<Tok>
    decreases n,
{
    if n <= 0 {
        Seq::empty()
    } else {
        roots_tokens(rs, n - 1) + root_tokens(rs[n - 1])
    }
}

pub open spec fn error_chain_word() -> Seq<char> {
    seq!['e', 'r', 'r', 'o', 'r', '_', 'c', 'h', 'a', 'i', 'n']
}

/// `::error_chain::error_chain!`
pub open spec fn invocation_prefix() -> Seq<Tok> {
    seq![
        Tok::Punct(':', true),
        Tok::Punct(':', false),
        Tok::Ident(error_chain_word()),
        Tok::Punct(':', true),
        Tok::Punct(':', false),
        Tok::Ident(error_chain_word()),
        Tok::Punct('!', false),
    ]
}

/// The whole expansion: parse, rewrite every shorthand entry, write the items
/// back out in a brace group after `::error_chain::error_chain!`.
pub open spec fn spec_expand(ts: Seq<Tok>) -> Result<Seq<Tok>, ParseError> {
    match spec_parse_root(ts) {
        Ok(rs) => Ok(
            invocation_prefix() + seq![
                Tok::Group(
                    Delimiter::Brace,
                    roots_tokens(spec_rewrite_roots(rs), rs.len() as int),
                ),
            ],
        ),
        Err(e) => Err(e),
    }
}

impl NormalError {
    /// Appends the entry: its name, its parameter group if any, its body.
    pub fn to_tokens(&self, tokens: &mut Vec<TokenTree>)
        ensures
            trees_view(final(tokens)@) == trees_view(old(tokens)@) + normal_tokens(self@),
    {
        let ghost start = trees_view(tokens@);
        push_tree(tokens, TokenTree::Ident(self.ident.clone()));
        match &self.args {
            Some(g) => push_tree(tokens, TokenTree::Group(copy_group(g))),
            None => {},
        }
        push_tree(tokens, TokenTree::Group(copy_group(&self.body)));
        assert(trees_view(tokens@) =~= start + normal_tokens(self@));
    }
}

impl ErrorsChildElementEnum {
    /// Appends the entry, which the rewrite has made canonical.
    pub fn to_tokens(&self, tokens: &mut Vec<TokenTree>)
        requires
            self@ is Normal,
        ensures
            trees_view(final(tokens)@) == trees_view(old(tokens)@) + entry_tokens(self@),
    {
        match self {
            ErrorsChildElementEnum::NormalError(n) => n.to_tokens(tokens),
            ErrorsChildElementEnum::QuickError(_) => {
                assert(false);
            },
        }
    }
}

impl ErrorsIdGroup {
    /// Appends the keyword and a brace group holding every entry in order.
    pub fn to_tokens(&self, tokens: &mut Vec<TokenTree>)
        requires
            canonical_entries(self@.entries),
        ensures
            trees_view(final(tokens)@) == trees_view(old(tokens)@) + root_tokens(RootV::Block(self@)),
    {
        let ghost es = self@.entries;
        let mut inner: Vec<TokenTree> = Vec::new();
        let mut i: usize = 0;
        while i < self.items.len()
            invariant
                es == entries_view(self.items@),
                canonical_entries(es),
                i <= es.len(),
                trees_view(inner@) == entries_tokens(es, i as int),
            decreases es.len() - i,
        {
            assert(es[i as int] is Normal);
            self.items[i].to_tokens(&mut inner);
            i = i + 1;
        }
        let ghost start = trees_view(tokens@);
        push_tree(tokens, TokenTree::Ident(self.ident.clone()));
        push_tree(tokens, TokenTree::Group(Group { delimiter: Delimiter::Brace, stream: inner }));
        assert(trees_view(tokens@) =~= start + root_tokens(RootV::Block(self@)));
    }
}

impl OtherIdGroup {
    /// Appends the name and the group, as they came.
    pub fn to_tokens(&self, tokens: &mut Vec<TokenTree>)
        ensures
            trees_view(final(tokens)@) == trees_view(old(tokens)@) + root_tokens(RootV::Opaque(self@)),
    {
        let ghost start = trees_view(tokens@);
        push_tree(tokens, TokenTree::Ident(self.ident.clone()));
        match &self.body {
            Some(g) => push_tree(tokens, TokenTree::Group(copy_group(g))),
            None => {},
        }
        assert(trees_view(tokens@) =~= start + root_tokens(RootV::Opaque(self@)));
    }
}

impl RootElementEnum {
    /// Appends the item.
    pub fn to_tokens(&self, tokens: &mut Vec<TokenTree>)
        requires
            self@ matches RootV::Block(b) ==> canonical_entries(b.entries),
        ensures
            trees_view(final(tokens)@) == trees_view(old(tokens)@) + root_tokens(self@),
    {
        match self {
            RootElementEnum::ErrorsIdGroup(b) => b.to_tokens(tokens),
            RootElementEnum::OtherIdGroup(o) => o.to_tokens(tokens),
        }
    }
}

impl RootElementVec {
    /// Appends one brace group holding every item in order.
    pub fn to_tokens(&self, tokens: &mut Vec<TokenTree>)
        requires
            canonical_roots(self@),
        ensures
            trees_view(final(tokens)@) == trees_view(old(tokens)@).push(
                Tok::Group(Delimiter::Brace, roots_tokens(self@, self@.len() as int)),
            ),
    {
        let ghost rs = self@;
        let mut inner: Vec<TokenTree> = Vec::new();
        let mut i: usize = 0;
        while i < self.items.len()
            invariant
                rs == self@,
                rs.len() == self.items@.len(),
                canonical_roots(rs),
                i <= rs.len(),
                trees_view(inner@) == roots_tokens(rs, i as int),
            decreases rs.len() - i,
        {
            assert(rs[i as int] == self.items@[i as int]@);
            self.items[i].to_tokens(&mut inner);
            i = i + 1;
        }
        push_tree(tokens, TokenTree::Group(Group { delimiter: Delimiter::Brace, stream: inner }));
    }
}

/// Expands an `error_chain_quick!` body: every `quick!` entry of the `errors`
/// block is rewritten into canonical form, everything else is kept as it
/// came, and the result is the body of an `::error_chain::error_chain!`
/// invocation. A malformed `quick!` entry, an empty `errors` block, an empty
/// input or a top-level item that does not start with an identifier is an error.
pub fn error_chain_quick(input: &Vec<TokenTree>) -> (r: Result<Vec<TokenTree>, ParseError>)
    ensures
        match r {
            Ok(out) => spec_expand(trees_view(input@)) == Ok::<Seq<Tok>, ParseError>(trees_view(out@)),
            Err(e) => spec_expand(trees_view(input@)) == Err::<Seq<Tok>, ParseError>(e),
        },
{
    let parsed = match RootElementVec::parse(input) {
        Ok(v) => v,
        Err(e) => return Err(e),
    };
    let ghost rs = parsed@;
    let transformed = parsed.process_quick_error();
    let mut out: Vec<TokenTree> = Vec::new();
    proof {
        reveal_strlit("error_chain");
        assert("error_chain"@ =~= error_chain_word());
    }
    push_tree(&mut out, TokenTree::Punct(':', true));
    push_tree(&mut out, TokenTree::Punct(':', false));
    push_tree(&mut out, word_tree("error_chain"));
    push_tree(&mut out, TokenTree::Punct(':', true));
    push_tree(&mut out, TokenTree::Punct(':', false));
    push_tree(&mut out, word_tree("error_chain"));
    push_tree(&mut out, TokenTree::Punct('!', false));
    assert(trees_view(out@) =~= invocation_prefix());
    transformed.to_tokens(&mut out);
    assert(trees_view(out@) =~= invocation_prefix() + seq![
        Tok::Group(Delimiter::Brace, roots_tokens(spec_rewrite_roots(rs), rs.len() as int)),
    ]);
    Ok(out)
}

} // verus!
