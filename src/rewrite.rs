//! The rewrite of shorthand entries into canonical ones.
use vstd::prelude::*;
use crate::tokens::{Delimiter, Group, Tok, TokenTree, trees_view, group_trees_view, push_tree, word_tree, copy_tree};
use crate::literal::{str_lit_of, string_literal};
use crate::quick::{
    BlockV, EntryV, ErrorsChildElementEnum, ErrorsIdGroup, NormalError, NormalV, QuickError,
    QuickV, RootElementEnum, RootElementVec, RootV,
};
use crate::parse::{names_view, entries_view, roots_view};

verus! {

broadcast use group_trees_view;

pub open spec fn string_type() -> Seq<char> {
    seq!['S', 't', 'r', 'i', 'n', 'g']
}

pub open spec fn description_word() -> Seq<char> {
    seq!['d', 'e', 's', 'c', 'r', 'i', 'p', 't', 'i', 'o', 'n']
}

pub open spec fn display_word() -> Seq<char> {
    seq!['d', 'i', 's', 'p', 'l', 'a', 'y']
}

/// `a1: String, a2: String, ..` for the first `n` arguments.
pub open spec fn param_tokens(args: Seq<Seq<char>>, n: int) -> Seq<Tok>
    decreases n,
{
    if n <= 0 {
        Seq::empty()
    } else if n == 1 {
        seq![Tok::Ident(args[0]), Tok::Punct(':', false), Tok::Ident(string_type())]
    } else {
        param_tokens(args, n - 1) + seq![
            Tok::Punct(',', false),
            Tok::Ident(args[n - 1]),
            Tok::Punct(':', false),
            Tok::Ident(string_type()),
        ]
    }
}

/// `" {}"` once per argument, the copies separated by commas.
pub open spec fn placeholders(n: int) -> Seq<char>
    decreases n,
{
    if n <= 0 {
        Seq::empty()
    } else if n == 1 {
        seq![' ', '{', '}']
    } else {
        placeholders(n - 1) + seq![',', ' ', '{', '}']
    }
}

/// The display message of an entry with `n` arguments: the description,
/// a colon, and one placeholder per argument.
pub open spec fn display_template(value: Seq<char>, n: int) -> Seq<char> {
    value + seq![':'] + placeholders(n)
}

/// `, a1, a2, ..` for the first `n` arguments.
pub open spec fn arg_refs(args: Seq<Seq<char>>, n: int) -> Seq<Tok>
    decreases n,
{
    if n <= 0 {
        Seq::empty()
    } else {
        arg_refs(args, n - 1) + seq![Tok::Punct(',', false), Tok::Ident(args[n - 1])]
    }
}

/// What the display call of a rewritten entry holds, where `message` is the
/// source text of the literal that carries the display message.
pub open spec fn display_args(q: QuickV, message: Seq<char>) -> Seq<Tok> {
    if q.args.len() == 0 {
        seq![Tok::Literal(q.desc)]
    } else {
        seq![Tok::Literal(message)] + arg_refs(q.args, q.args.len() as int)
    }
}

/// The canonical entry that a shorthand entry stands for.
pub open spec fn spec_rewrite_quick(q: QuickV) -> NormalV {
    rewrite_with(q, str_lit_of(display_template(q.value, q.args.len() as int)))
}

/// The canonical entry that a shorthand entry stands for, given the source
/// text of the display message's literal.
pub open spec fn rewrite_with(q: QuickV, message: Seq<char>) -> NormalV {
    NormalV {
        name: q.name,
        params: if q.args.len() == 0 {
            None
        } else {
            Some(Tok::Group(Delimiter::Parenthesis, param_tokens(q.args, q.args.len() as int)))
        },
        body: Tok::Group(
            Delimiter::Brace,
            seq![
                Tok::Ident(description_word()),
                Tok::Group(Delimiter::Parenthesis, seq![Tok::Literal(q.desc)]),
                Tok::Ident(display_word()),
                Tok::Group(Delimiter::Parenthesis, display_args(q, message)),
            ],
        ),
    }
}

pub open spec fn spec_rewrite_entry(e: EntryV) -> EntryV {
    match e {
        EntryV::Quick(q) => EntryV::Normal(spec_rewrite_quick(q)),
        EntryV::Normal(n) => EntryV::Normal(n),
    }
}

pub open spec fn spec_rewrite_block(b: BlockV) -> BlockV {
    BlockV { name: b.name, entries: b.entries.map_values(|e: EntryV| spec_rewrite_entry(e)) }
}

pub open spec fn spec_rewrite_root(r: RootV) -> RootV {
    match r {
        RootV::Block(b) => RootV::Block(spec_rewrite_block(b)),
        RootV::Opaque(o) => RootV::Opaque(o),
    }
}

pub open spec fn spec_rewrite_roots(rs: Seq<RootV>) -> Seq<RootV> {
    rs.map_values(|r: RootV| spec_rewrite_root(r))
}

pub open spec fn canonical_entries(es: Seq<EntryV>) -> bool {
    forall|i: int| 0 <= i < es.len() ==> #[trigger] es[i] is Normal
}

/// No shorthand entry is left anywhere in the items.
pub open spec fn canonical_roots(rs: Seq<RootV>) -> bool {
    forall|i: int| 0 <= i < rs.len() ==> (#[trigger] rs[i] matches RootV::Block(b) ==> canonical_entries(b.entries))
}

proof fn lemma_words()
    ensures
        "String"@ == string_type(),
        "description"@ == description_word(),
        "display"@ == display_word(),
        ":"@ == seq![':'],
        " {}"@ == seq![' ', '{', '}'],
        ", {}"@ == seq![',', ' ', '{', '}'],
{
    reveal_strlit("String");
    reveal_strlit("description");
    reveal_strlit("display");
    reveal_strlit(":");
    reveal_strlit(" {}");
    reveal_strlit(", {}");
    assert("String"@ =~= string_type());
    assert("description"@ =~= description_word());
    assert("display"@ =~= display_word());
    assert(":"@ =~= seq![':']);
    assert(" {}"@ =~= seq![' ', '{', '}']);
    assert(", {}"@ =~= seq![',', ' ', '{', '}']);
}

impl QuickError {
    /// The display message: the description, a colon, and one `{}`
    /// placeholder per argument, comma-separated.
    pub fn display_message(&self) -> (r: String)
        ensures
            r@ == display_template(self@.value, self@.args.len() as int),
    {
        proof {
            lemma_words();
        }
        let n = self.inner_args.len();
        let mut template = self.desc_value.clone();
        template.append(":");
        let mut i: usize = 0;
        while i < n
            invariant
                n == self@.args.len(),
                i <= n,
                template@ == display_template(self@.value, i as int),
            decreases n - i,
        {
            proof {
                lemma_words();
            }
            if i > 0 {
                template.append(", {}");
            } else {
                template.append(" {}");
            }
            assert(template@ =~= display_template(self@.value, i + 1));
            i = i + 1;
        }
        template
    }

    /// The canonical entry that this shorthand entry stands for.
    pub fn process_quick_error(self) -> (r: NormalError)
        ensures
            r@ == spec_rewrite_quick(self@),
    {
        let message = self.display_message();
        let literal = string_literal(&message);
        self.canonical_with_message(literal)
    }

    /// The canonical entry that this shorthand entry stands for, where
    /// `message_literal` is the source text of the display message's literal
    /// (used only when there are arguments).
    pub fn canonical_with_message(self, message_literal: String) -> (r: NormalError)
        ensures
            r@ == rewrite_with(self@, message_literal@),
    {
        let ghost qv = self@;
        let n = self.inner_args.len();
        proof {
            lemma_words();
        }
        let mut params: Vec<TokenTree> = Vec::new();
        let mut refs: Vec<TokenTree> = Vec::new();
        let mut i: usize = 0;
        while i < n
            invariant
                n == self.inner_args@.len(),
                qv == self@,
                i <= n,
                trees_view(params@) == param_tokens(qv.args, i as int),
                trees_view(refs@) == arg_refs(qv.args, i as int),
            decreases n - i,
        {
            proof {
                lemma_words();
            }
            let a = &self.inner_args[i];
            assert(qv.args[i as int] == a@);
            if i > 0 {
                push_tree(&mut params, TokenTree::Punct(',', false));
            }
            push_tree(&mut params, TokenTree::Ident(a.clone()));
            push_tree(&mut params, TokenTree::Punct(':', false));
            push_tree(&mut params, word_tree("String"));
            push_tree(&mut refs, TokenTree::Punct(',', false));
            push_tree(&mut refs, TokenTree::Ident(a.clone()));
            proof {
                if i == 0 {
                    assert(trees_view(params@) =~= param_tokens(qv.args, 1));
                } else {
                    assert(trees_view(params@) =~= param_tokens(qv.args, i as int) + seq![
                        Tok::Punct(',', false),
                        Tok::Ident(qv.args[i as int]),
                        Tok::Punct(':', false),
                        Tok::Ident(string_type()),
                    ]);
                }
                assert(trees_view(params@) =~= param_tokens(qv.args, i + 1));
                assert(trees_view(refs@) =~= arg_refs(qv.args, i + 1));
            }
            i = i + 1;
        }
        let args = if n == 0 {
            None
        } else {
            Some(Group { delimiter: Delimiter::Parenthesis, stream: params })
        };
        let mut shown: Vec<TokenTree> = Vec::new();
        if n == 0 {
            push_tree(&mut shown, TokenTree::Literal(self.desc.clone()));
        } else {
            let ghost message = message_literal@;
            push_tree(&mut shown, TokenTree::Literal(message_literal));
            let mut k: usize = 0;
            while k < refs.len()
                invariant
                    k <= refs@.len(),
                    trees_view(shown@) == seq![Tok::Literal(message)] + trees_view(refs@).subrange(0, k as int),
                decreases refs@.len() - k,
            {
                let t = copy_tree(&refs[k]);
                push_tree(&mut shown, t);
                assert(trees_view(shown@) =~= seq![Tok::Literal(message)] + trees_view(refs@).subrange(0, k + 1));
                k = k + 1;
            }
            assert(trees_view(refs@).subrange(0, refs@.len() as int) =~= trees_view(refs@));
        }
        proof {
            lemma_words();
        }
        assert(trees_view(shown@) =~= display_args(qv, message_literal@));
        let mut body: Vec<TokenTree> = Vec::new();
        push_tree(&mut body, word_tree("description"));
        let mut d: Vec<TokenTree> = Vec::new();
        push_tree(&mut d, TokenTree::Literal(self.desc));
        push_tree(&mut body, TokenTree::Group(Group { delimiter: Delimiter::Parenthesis, stream: d }));
        push_tree(&mut body, word_tree("display"));
        push_tree(&mut body, TokenTree::Group(Group { delimiter: Delimiter::Parenthesis, stream: shown }));
        let r = NormalError {
            ident: self.err_ident,
            args,
            body: Group { delimiter: Delimiter::Brace, stream: body },
        };
        assert(trees_view(d@) =~= seq![Tok::Literal(qv.desc)]);
        assert(trees_view(body@) =~= seq![
            Tok::Ident(description_word()),
            Tok::Group(Delimiter::Parenthesis, seq![Tok::Literal(qv.desc)]),
            Tok::Ident(display_word()),
            Tok::Group(Delimiter::Parenthesis, display_args(qv, message_literal@)),
        ]);
        r
    }
}

impl ErrorsChildElementEnum {
    /// The entry with a shorthand entry replaced by its canonical form.
    pub fn process_quick_error(self) -> (r: ErrorsChildElementEnum)
        ensures
            r@ == spec_rewrite_entry(self@),
    {
        match self {
            ErrorsChildElementEnum::QuickError(q) => ErrorsChildElementEnum::NormalError(q.process_quick_error()),
            ErrorsChildElementEnum::NormalError(n) => ErrorsChildElementEnum::NormalError(n),
        }
    }
}

impl ErrorsIdGroup {
    /// The block with every shorthand entry replaced, in place, by its canonical form.
    pub fn process_quick_error(self) -> (r: ErrorsIdGroup)
        ensures
            r@ == spec_rewrite_block(self@),
            canonical_entries(r@.entries),
    {
        let ghost old_items = entries_view(self.items@);
        let ident = self.ident;
        let mut rest = self.items;
        let mut new_items: Vec<ErrorsChildElementEnum> = Vec::new();
        let ghost n = rest@.len();
        while rest.len() > 0
            invariant
                old_items.len() == n,
                new_items@.len() + rest@.len() == n,
                entries_view(rest@) =~= old_items.subrange(new_items@.len() as int, n as int),
                forall|k: int| 0 <= k < new_items@.len() ==> #[trigger] new_items@[k]@ == spec_rewrite_entry(old_items[k]),
            decreases rest@.len(),
        {
            let ghost k = new_items@.len() as int;
            assert(entries_view(rest@)[0] == old_items[k]);
            let ghost prev = rest@;
            let item = rest.remove(0);
            assert forall|j: int| 0 <= j < rest@.len() implies #[trigger] entries_view(rest@)[j] == old_items[k + 1 + j] by {
                assert(rest@[j] == prev[j + 1]);
                assert(entries_view(prev)[j + 1] == old_items[k + 1 + j]);
            }
            new_items.push(item.process_quick_error());
            assert(entries_view(rest@) =~= old_items.subrange(k + 1, n as int));
        }
        let r = ErrorsIdGroup { ident, items: new_items };
        assert(r@.entries =~= old_items.map_values(|e: EntryV| spec_rewrite_entry(e)));
        r
    }
}

impl RootElementEnum {
    /// The item with every shorthand entry in it replaced by its canonical form.
    pub fn process_quick_error(self) -> (r: RootElementEnum)
        ensures
            r@ == spec_rewrite_root(self@),
            r@ matches RootV::Block(b) ==> canonical_entries(b.entries),
    {
        match self {
            RootElementEnum::ErrorsIdGroup(b) => RootElementEnum::ErrorsIdGroup(b.process_quick_error()),
            RootElementEnum::OtherIdGroup(o) => RootElementEnum::OtherIdGroup(o),
        }
    }
}

impl RootElementVec {
    /// Every item with every shorthand entry replaced by its canonical form;
    /// nothing else changes, and the order of items and entries is kept.
    pub fn process_quick_error(self) -> (r: RootElementVec)
        ensures
            r@ == spec_rewrite_roots(self@),
            canonical_roots(r@),
    {
        let ghost old_items = self@;
        let mut rest = self.items;
        assert(roots_view(rest@) =~= old_items);
        let mut new_items: Vec<RootElementEnum> = Vec::new();
        let ghost n = rest@.len();
        while rest.len() > 0
            invariant
                old_items.len() == n,
                new_items@.len() + rest@.len() == n,
                roots_view(rest@) =~= old_items.subrange(new_items@.len() as int, n as int),
                forall|k: int| 0 <= k < new_items@.len() ==> #[trigger] new_items@[k]@ == spec_rewrite_root(old_items[k]),
                forall|k: int| 0 <= k < new_items@.len() ==> (#[trigger] new_items@[k]@ matches RootV::Block(b) ==> canonical_entries(b.entries)),
            decreases rest@.len(),
        {
            let ghost k = new_items@.len() as int;
            assert(roots_view(rest@)[0] == old_items[k]);
            let ghost prev = rest@;
            let item = rest.remove(0);
            assert forall|j: int| 0 <= j < rest@.len() implies #[trigger] roots_view(rest@)[j] == old_items[k + 1 + j] by {
                assert(rest@[j] == prev[j + 1]);
                assert(roots_view(prev)[j + 1] == old_items[k + 1 + j]);
            }
            new_items.push(item.process_quick_error());
            assert(roots_view(rest@) =~= old_items.subrange(k + 1, n as int));
        }
        let r = RootElementVec { items: new_items };
        assert(r@ =~= old_items.map_values(|x: RootV| spec_rewrite_root(x)));
        r
    }
}

} // verus!
