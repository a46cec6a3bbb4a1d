//! Properties of the expansion as a whole.
use vstd::prelude::*;
use crate::tokens::Delimiter;
use crate::tokens::Tok;
use crate::quick::{
    BlockV, EntryV, ParseError, RootV, errors_keyword, is_punct, quick_keyword, is_word,
    spec_arg_list, spec_quick_fields, spec_parse_quick, spec_parse_entry, spec_parse_block,
    spec_parse_root_item, spec_parse_root, spec_parse_items,
};
use crate::rewrite::{
    canonical_entries, canonical_roots, spec_rewrite_block, spec_rewrite_entry, spec_rewrite_roots,
};
use crate::quick::{spec_parse_normal, spec_parse_entries, spec_parse_other, word, group_body};
use crate::emit::{spec_expand, entries_tokens, entry_tokens, roots_tokens, root_tokens, invocation_prefix};

verus! {

/// Rewriting items that hold no shorthand entry changes nothing.
pub proof fn lemma_rewrite_canonical_is_identity(rs: Seq<RootV>)
    requires
        canonical_roots(rs),
    ensures
        spec_rewrite_roots(rs) == rs,
{
    assert forall|i: int| 0 <= i < rs.len() implies #[trigger] spec_rewrite_roots(rs)[i] == rs[i] by {
        match rs[i] {
            RootV::Block(b) => {
                assert(canonical_entries(b.entries));
                assert(spec_rewrite_block(b).entries =~= b.entries);
            },
            RootV::Opaque(_) => {},
        }
    }
    assert(spec_rewrite_roots(rs) =~= rs);
}

/// The rewrite keeps the entries of a block in their order: the entry at
/// each position is the rewrite of the entry that stood there, and a
/// canonical entry stays as it was.
pub proof fn lemma_rewrite_keeps_entry_order(b: BlockV, i: int)
    requires
        0 <= i < b.entries.len(),
    ensures
        spec_rewrite_block(b).entries.len() == b.entries.len(),
        spec_rewrite_block(b).entries[i] == spec_rewrite_entry(b.entries[i]),
        b.entries[i] is Normal ==> spec_rewrite_block(b).entries[i] == b.entries[i],
{
}

/// An `errors` block whose braces hold nothing is an error, and the input
/// that starts with one does not expand.
pub proof fn lemma_empty_block_rejected(ts: Seq<Tok>)
    requires
        ts.len() >= 2,
        ts[0] == Tok::Ident(errors_keyword()),
        ts[1] == Tok::Group(Delimiter::Brace, Seq::empty()),
    ensures
        spec_parse_block(ts, 0) == Err::<(BlockV, int), ParseError>(ParseError::EmptyBlock),
        spec_expand(ts) == Err::<Seq<Tok>, ParseError>(ParseError::EmptyBlock),
{
    assert(spec_parse_root_item(ts, 0) == Err::<(RootV, int), ParseError>(ParseError::EmptyBlock));
    assert(spec_parse_root(ts) == spec_parse_items(ts, 0));
}

/// Once `quick !` has matched, a failure to read the rest of a shorthand
/// entry is an `InvalidQuick` error: the entry is not tried as a canonical one.
pub proof fn lemma_malformed_quick_commits(ts: Seq<Tok>, p: int)
    requires
        0 <= p,
        p + 1 < ts.len(),
        is_word(ts[p], quick_keyword()),
        is_punct(ts[p + 1], '!'),
        spec_parse_quick(ts, p) is Err,
    ensures
        spec_parse_entry(ts, p) == Err::<(EntryV, int), ParseError>(spec_parse_quick(ts, p)->Err_0),
        spec_parse_entry(ts, p) matches Err(ParseError::InvalidQuick(_)),
{
}

/// A malformed shorthand entry inside the `errors` block fails the item: it
/// is not taken for some other item.
pub proof fn lemma_invalid_quick_not_opaque(ts: Seq<Tok>, p: int)
    requires
        spec_parse_block(ts, p) matches Err(ParseError::InvalidQuick(_)),
    ensures
        spec_parse_root_item(ts, p) == Err::<(RootV, int), ParseError>(spec_parse_block(ts, p)->Err_0),
{
}

/// A trailing comma after an argument list does not change it.
pub proof fn lemma_arg_list_trailing_comma(ts: Seq<Tok>, j: bool)
    requires
        ts.len() > 0,
        !is_punct(ts.last(), ','),
        spec_arg_list(ts, 0) is Some,
    ensures
        spec_arg_list(ts.push(Tok::Punct(',', j)), 0) == spec_arg_list(ts, 0),
{
    lemma_arg_list_comma_from(ts, j, 0);
}

proof fn lemma_arg_list_comma_from(ts: Seq<Tok>, j: bool, i: int)
    requires
        0 <= i < ts.len(),
        !is_punct(ts.last(), ','),
        spec_arg_list(ts, i) is Some,
    ensures
        spec_arg_list(ts.push(Tok::Punct(',', j)), i) == spec_arg_list(ts, i),
    decreases ts.len() - i,
{
    let us = ts.push(Tok::Punct(',', j));
    assert(us[i] == ts[i]);
    if i + 1 == ts.len() {
        assert(us[i + 1] == Tok::Punct(',', j));
        assert(spec_arg_list(us, i + 2) == Some(Seq::<Seq<char>>::empty()));
        assert(seq![crate::quick::word(ts[i])] + Seq::<Seq<char>>::empty() =~= seq![crate::quick::word(ts[i])]);
    } else {
        assert(us[i + 1] == ts[i + 1]);
        if i + 2 < ts.len() {
            lemma_arg_list_comma_from(ts, j, i + 2);
        } else {
            // `ts` would end with the comma at `i + 1`.
            assert(ts.last() == ts[i + 1]);
        }
    }
}

/// A trailing comma after the last field of a shorthand entry does not
/// change what is read from it.
pub proof fn lemma_quick_trailing_comma(ts: Seq<Tok>, j: bool)
    requires
        ts.len() > 0,
        !is_punct(ts.last(), ','),
        spec_quick_fields(ts) is Ok,
    ensures
        spec_quick_fields(ts.push(Tok::Punct(',', j))) == spec_quick_fields(ts),
{
    let us = ts.push(Tok::Punct(',', j));
    assert(us[0] == ts[0]);
    assert(us[1] == ts[1]);
    assert(us[2] == ts[2]);
    if ts.len() > 3 {
        assert(us[3] == ts[3]);
        assert(us[4] == ts[4]);
    }
}

proof fn lemma_entries_tokens_cons(e: EntryV, rest: Seq<EntryV>, n: int)
    requires
        0 <= n <= rest.len(),
    ensures
        entries_tokens(seq![e] + rest, n + 1) == entry_tokens(e) + entries_tokens(rest, n),
    decreases n,
{
    let es = seq![e] + rest;
    if n == 0 {
        assert(entries_tokens(es, 1) == entries_tokens(es, 0) + entry_tokens(es[0]));
        assert(entries_tokens(es, 1) =~= entry_tokens(e) + entries_tokens(rest, 0));
    } else {
        lemma_entries_tokens_cons(e, rest, n - 1);
        assert(es[n] == rest[n - 1]);
        assert(entries_tokens(es, n + 1) =~= entry_tokens(e) + entries_tokens(rest, n));
    }
}

proof fn lemma_roots_tokens_cons(r: RootV, rest: Seq<RootV>, n: int)
    requires
        0 <= n <= rest.len(),
    ensures
        roots_tokens(seq![r] + rest, n + 1) == root_tokens(r) + roots_tokens(rest, n),
    decreases n,
{
    let rs = seq![r] + rest;
    if n == 0 {
        assert(roots_tokens(rs, 1) == roots_tokens(rs, 0) + root_tokens(rs[0]));
        assert(roots_tokens(rs, 1) =~= root_tokens(r) + roots_tokens(rest, 0));
    } else {
        lemma_roots_tokens_cons(r, rest, n - 1);
        assert(rs[n] == rest[n - 1]);
        assert(roots_tokens(rs, n + 1) =~= root_tokens(r) + roots_tokens(rest, n));
    }
}

proof fn lemma_entry_replays(ts: Seq<Tok>, p: int)
    requires
        spec_parse_entry(ts, p) matches Ok((EntryV::Normal(_), _)),
    ensures
        entry_tokens(spec_parse_entry(ts, p)->Ok_0.0) == ts.subrange(p, spec_parse_entry(ts, p)->Ok_0.1),
{
    let (e, q) = spec_parse_entry(ts, p)->Ok_0;
    assert(spec_parse_normal(ts, p) is Ok);
    assert(Tok::Ident(word(ts[p])) == ts[p]);
    assert(entry_tokens(e) =~= ts.subrange(p, q));
}

proof fn lemma_entries_replay(ts: Seq<Tok>, p: int)
    requires
        0 <= p <= ts.len(),
        spec_parse_entries(ts, p) is Ok,
        canonical_entries(spec_parse_entries(ts, p)->Ok_0),
    ensures
        entries_tokens(spec_parse_entries(ts, p)->Ok_0, spec_parse_entries(ts, p)->Ok_0.len() as int)
            == ts.subrange(p, ts.len() as int),
    decreases ts.len() - p,
{
    let es = spec_parse_entries(ts, p)->Ok_0;
    if p == ts.len() {
        assert(ts.subrange(p, ts.len() as int) =~= Seq::<Tok>::empty());
    } else {
        crate::parse::lemma_entry_advances(ts, p);
        let (e, q) = spec_parse_entry(ts, p)->Ok_0;
        let rest = spec_parse_entries(ts, q)->Ok_0;
        assert(es == seq![e] + rest);
        assert(es[0] == e);
        assert(canonical_entries(rest)) by {
            assert forall|i: int| 0 <= i < rest.len() implies #[trigger] rest[i] is Normal by {
                assert(es[i + 1] == rest[i]);
            }
        }
        lemma_entry_replays(ts, p);
        lemma_entries_replay(ts, q);
        lemma_entries_tokens_cons(e, rest, rest.len() as int);
        assert(ts.subrange(p, q) + ts.subrange(q, ts.len() as int) =~= ts.subrange(p, ts.len() as int));
    }
}

proof fn lemma_root_item_replays(ts: Seq<Tok>, p: int)
    requires
        spec_parse_root_item(ts, p) is Ok,
        spec_parse_root_item(ts, p)->Ok_0.0 matches RootV::Block(b) ==> canonical_entries(b.entries),
    ensures
        root_tokens(spec_parse_root_item(ts, p)->Ok_0.0) == ts.subrange(p, spec_parse_root_item(ts, p)->Ok_0.1),
{
    let (r, q) = spec_parse_root_item(ts, p)->Ok_0;
    assert(Tok::Ident(word(ts[p])) == ts[p]);
    match r {
        RootV::Block(b) => {
            let body = group_body(ts[p + 1]);
            assert(ts[p + 1] == Tok::Group(Delimiter::Brace, body));
            lemma_entries_replay(body, 0);
            assert(body.subrange(0, body.len() as int) =~= body);
            assert(root_tokens(r) =~= ts.subrange(p, q));
        },
        RootV::Opaque(o) => {
            assert(spec_parse_other(ts, p) is Ok);
            assert(root_tokens(r) =~= ts.subrange(p, q));
        },
    }
}

proof fn lemma_items_replay(ts: Seq<Tok>, p: int)
    requires
        0 <= p <= ts.len(),
        spec_parse_items(ts, p) is Ok,
        canonical_roots(spec_parse_items(ts, p)->Ok_0),
    ensures
        roots_tokens(spec_parse_items(ts, p)->Ok_0, spec_parse_items(ts, p)->Ok_0.len() as int)
            == ts.subrange(p, ts.len() as int),
    decreases ts.len() - p,
{
    let rs = spec_parse_items(ts, p)->Ok_0;
    if p == ts.len() {
        assert(ts.subrange(p, ts.len() as int) =~= Seq::<Tok>::empty());
    } else {
        crate::parse::lemma_root_item_advances(ts, p);
        let (r, q) = spec_parse_root_item(ts, p)->Ok_0;
        let rest = spec_parse_items(ts, q)->Ok_0;
        assert(rs == seq![r] + rest);
        assert(rs[0] == r);
        assert(canonical_roots(rest)) by {
            assert forall|i: int| 0 <= i < rest.len() implies (#[trigger] rest[i] matches RootV::Block(b)
                ==> canonical_entries(b.entries)) by {
                assert(rs[i + 1] == rest[i]);
            }
        }
        lemma_root_item_replays(ts, p);
        lemma_items_replay(ts, q);
        lemma_roots_tokens_cons(r, rest, rest.len() as int);
        assert(ts.subrange(p, q) + ts.subrange(q, ts.len() as int) =~= ts.subrange(p, ts.len() as int));
    }
}

/// An input that holds no shorthand entry comes out as it went in, token for
/// token, inside the `::error_chain::error_chain!` invocation.
pub proof fn lemma_round_trip_without_shorthand(ts: Seq<Tok>)
    requires
        spec_parse_root(ts) is Ok,
        canonical_roots(spec_parse_root(ts)->Ok_0),
    ensures
        spec_expand(ts) == Ok::<Seq<Tok>, ParseError>(
            invocation_prefix() + seq![Tok::Group(Delimiter::Brace, ts)],
        ),
{
    let rs = spec_parse_root(ts)->Ok_0;
    lemma_rewrite_canonical_is_identity(rs);
    lemma_items_replay(ts, 0);
    assert(ts.subrange(0, ts.len() as int) =~= ts);
}

} // verus!
