//! Token trees as plain values, and their mathematical view.
use vstd::prelude::*;

verus! {

broadcast use vstd::std_specs::vec::group_vec_axioms, vstd::seq::group_seq_axioms;

/// The bracket kind of a delimited group.
#[derive(Clone, Copy, Debug, PartialEq, Eq, Structural)]
pub enum Delimiter {
    Parenthesis,
    Brace,
    Bracket,
    /// An invisible delimiter.
    Invisible,
}

/// A delimited group: a delimiter and the trees it encloses.
#[derive(Debug)]
pub struct Group {
    pub delimiter: Delimiter,
    pub stream: Vec<TokenTree>,
}

/// One token tree: an atomic token or a delimited group.
#[derive(Debug)]
pub enum TokenTree {
    /// An identifier, by its text.
    Ident(String),
    /// A punctuation character; `true` when it is joined to the next one.
    Punct(char, bool),
    /// A literal, by its source text (quotes and escapes included).
    Literal(String),
    Group(Group),
}

/// The view of a token tree.
pub enum Tok {
    Ident(Seq<char>),
    Punct(char, bool),
    Literal(Seq<char>),
    Group(Delimiter, Seq<Tok>),
}

pub open spec fn tree_view(t: TokenTree) -> Tok
    decreases t, 0int,
{
    match t {
        TokenTree::Ident(s) => Tok::Ident(s@),
        TokenTree::Punct(c, j) => Tok::Punct(c, j),
        TokenTree::Literal(s) => Tok::Literal(s@),
        TokenTree::Group(g) => Tok::Group(g.delimiter, trees_view_from(g.stream@, 0)),
    }
}

/// The views of `s[i..]`.
pub open spec fn trees_view_from(s: Seq<TokenTree>, i: int) -> Seq<Tok>
    decreases s, s.len() - i,
{
    if 0 <= i < s.len() {
        seq![tree_view(s[i])] + trees_view_from(s, i + 1)
    } else {
        Seq::empty()
    }
}

/// The views of a sequence of trees, in order.
pub open spec fn trees_view(s: Seq<TokenTree>) -> Seq<Tok> {
    trees_view_from(s, 0)
}

proof fn lemma_trees_view_from(s: Seq<TokenTree>, i: int)
    requires
        0 <= i <= s.len(),
    ensures
        trees_view_from(s, i).len() == s.len() - i,
        forall|k: int|
            0 <= k < s.len() - i ==> #[trigger] trees_view_from(s, i)[k] == tree_view(s[i + k]),
    decreases s.len() - i,
{
    if i < s.len() {
        lemma_trees_view_from(s, i + 1);
        assert forall|k: int| 0 <= k < s.len() - i implies #[trigger] trees_view_from(s, i)[k]
            == tree_view(s[i + k]) by {
            if k > 0 {
                assert(trees_view_from(s, i)[k] == trees_view_from(s, i + 1)[k - 1]);
            }
        }
    }
}

/// The view of a sequence has one element per tree.
pub broadcast proof fn lemma_trees_view_len(s: Seq<TokenTree>)
    ensures
        #[trigger] trees_view(s).len() == s.len(),
{
    lemma_trees_view_from(s, 0);
}

/// Each element of the view of a sequence is the view of that tree.
pub broadcast proof fn lemma_trees_view_index(s: Seq<TokenTree>, k: int)
    requires
        0 <= k < s.len(),
    ensures
        #[trigger] trees_view(s)[k] == tree_view(s[k]),
{
    lemma_trees_view_from(s, 0);
}

pub broadcast group group_trees_view {
    lemma_trees_view_len,
    lemma_trees_view_index,
}

impl View for TokenTree {
    type V = Tok;

    open spec fn view(&self) -> Tok {
        tree_view(*self)
    }
}

impl View for Group {
    type V = Tok;

    open spec fn view(&self) -> Tok {
        Tok::Group(self.delimiter, trees_view(self.stream@))
    }
}

/// A copy of a tree, equal to it in every token.
pub fn copy_tree(t: &TokenTree) -> (r: TokenTree)
    ensures
        r@ == t@,
    decreases t,
{
    match t {
        TokenTree::Ident(s) => TokenTree::Ident(s.clone()),
        TokenTree::Punct(c, j) => TokenTree::Punct(*c, *j),
        TokenTree::Literal(s) => TokenTree::Literal(s.clone()),
        TokenTree::Group(g) => TokenTree::Group(copy_group(g)),
    }
}

/// A copy of a group, equal to it in every token.
pub fn copy_group(g: &Group) -> (r: Group)
    ensures
        r@ == g@,
    decreases g,
{
    broadcast use group_trees_view;

    let mut out: Vec<TokenTree> = Vec::new();
    let mut i: usize = 0;
    while i < g.stream.len()
        invariant
            i <= g.stream@.len(),
            out@.len() == i,
            forall|k: int| 0 <= k < i ==> #[trigger] out@[k]@ == g.stream@[k]@,
        decreases g.stream@.len() - i,
    {
        proof {
            assert(decreases_to!(g => g.stream@[i as int]));
        }
        let c = copy_tree(&g.stream[i]);
        out.push(c);
        i = i + 1;
    }
    assert forall|k: int| 0 <= k < out@.len() implies #[trigger] trees_view(out@)[k]
        == trees_view(g.stream@)[k] by {
        assert(out@[k]@ == g.stream@[k]@);
    }
    assert(trees_view(out@) =~= trees_view(g.stream@));
    Group { delimiter: g.delimiter, stream: out }
}

proof fn lemma_push_view(s: Seq<TokenTree>, t: TokenTree)
    ensures
        trees_view(s.push(t)) == trees_view(s).push(t@),
{
    broadcast use group_trees_view;

    assert(trees_view(s.push(t)) =~= trees_view(s).push(t@));
}

/// Appends a tree to a vector of trees.
pub fn push_tree(v: &mut Vec<TokenTree>, t: TokenTree)
    ensures
        trees_view(final(v)@) == trees_view(old(v)@).push(t@),
{
    proof {
        lemma_push_view(v@, t);
    }
    v.push(t);
}

/// An identifier with the text `w`.
pub fn word_tree(w: &str) -> (r: TokenTree)
    ensures
        r@ == Tok::Ident(w@),
{
    TokenTree::Ident(String::from_str(w))
}

/// Whether the text of `s` is `w`.
pub fn text_is(s: &String, w: &str) -> (r: bool)
    ensures
        r == (s@ == w@),
{
    let a = s.as_str();
    let n = a.unicode_len();
    if n != w.unicode_len() {
        return false;
    }
    let mut i: usize = 0;
    while i < n
        invariant
            n == a@.len(),
            n == w@.len(),
            a@ == s@,
            i <= n,
            forall|k: int| 0 <= k < i ==> a@[k] == w@[k],
        decreases n - i,
    {
        if a.get_char(i) != w.get_char(i) {
            return false;
        }
        i = i + 1;
    }
    assert(a@ =~= w@);
    true
}

} // verus!
