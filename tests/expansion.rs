use quick_errors::emit::error_chain_quick;
use quick_errors::quick::{Expected, ParseError, RootElementVec};
use quick_errors::tokens::{Delimiter, Group, TokenTree};

fn id(s: &str) -> TokenTree {
    TokenTree::Ident(s.to_string())
}

fn pu(c: char) -> TokenTree {
    TokenTree::Punct(c, false)
}

fn lit(text: &str) -> TokenTree {
    TokenTree::Literal(format!("\"{}\"", text))
}

fn group(delimiter: Delimiter, stream: Vec<TokenTree>) -> TokenTree {
    TokenTree::Group(Group { delimiter, stream })
}

fn paren(stream: Vec<TokenTree>) -> TokenTree {
    group(Delimiter::Parenthesis, stream)
}

fn brace(stream: Vec<TokenTree>) -> TokenTree {
    group(Delimiter::Brace, stream)
}

fn quick(fields: Vec<TokenTree>) -> Vec<TokenTree> {
    vec![id("quick"), pu('!'), paren(fields)]
}

fn names(args: &[&str], trailing: bool) -> TokenTree {
    let mut v = Vec::new();
    for (i, a) in args.iter().enumerate() {
        if i > 0 {
            v.push(pu(','));
        }
        v.push(id(a));
    }
    if trailing {
        v.push(pu(','));
    }
    paren(v)
}

fn params(args: &[&str]) -> TokenTree {
    let mut v = Vec::new();
    for (i, a) in args.iter().enumerate() {
        if i > 0 {
            v.push(pu(','));
        }
        v.push(id(a));
        v.push(pu(':'));
        v.push(id("String"));
    }
    paren(v)
}

fn canonical_body(desc: TokenTree, shown: Vec<TokenTree>) -> TokenTree {
    brace(vec![id("description"), paren(vec![desc]), id("display"), paren(shown)])
}

fn prefix() -> Vec<TokenTree> {
    vec![
        TokenTree::Punct(':', true),
        pu(':'),
        id("error_chain"),
        TokenTree::Punct(':', true),
        pu(':'),
        id("error_chain"),
        pu('!'),
    ]
}

fn invocation(items: Vec<TokenTree>) -> Vec<TokenTree> {
    let mut v = prefix();
    v.push(brace(items));
    v
}

fn errors_block(entries: Vec<TokenTree>) -> Vec<TokenTree> {
    vec![id("errors"), brace(entries)]
}

fn show(v: &Vec<TokenTree>) -> String {
    format!("{:?}", v)
}

fn expand_ok(input: Vec<TokenTree>) -> Vec<TokenTree> {
    match error_chain_quick(&input) {
        Ok(v) => v,
        Err(e) => panic!("expansion failed: {}", e.message()),
    }
}

fn types_item() -> Vec<TokenTree> {
    vec![
        id("types"),
        brace(vec![
            id("BuildError"),
            pu(','),
            id("BEKind"),
            pu(','),
            id("BETrait"),
            pu(','),
            id("BEResult"),
            pu(';'),
        ]),
    ]
}

fn normal_entries() -> Vec<TokenTree> {
    vec![
        id("NormalError1"),
        brace(vec![
            id("description"),
            paren(vec![lit("Error 1 Description: Without Arguments")]),
            pu(','),
            id("display"),
            paren(vec![lit("Error 1 Display")]),
        ]),
        id("NormalError2"),
        params(&["arg1", "arg2"]),
        brace(vec![
            id("description"),
            paren(vec![lit("Error 2 Description: With Arguments")]),
            pu(','),
            id("display"),
            paren(vec![
                lit("Error 2 Display: {}, {}"),
                pu(','),
                id("arg1"),
                pu(','),
                id("arg2"),
            ]),
            pu(','),
        ]),
    ]
}

#[test]
fn test() {
    let mut entries = normal_entries();
    entries.extend(quick(vec![id("QuickError1"), pu(','), lit("Error 1 Description: Zero arguments")]));
    entries.extend(quick(vec![
        id("QuickError2"),
        pu(','),
        lit("Error 2 Description: One Argument"),
        pu(','),
        names(&["arg1"], true),
    ]));
    entries.extend(quick(vec![
        id("QuickError3"),
        pu(','),
        lit("Error 3 Description: Three Arguments"),
        pu(','),
        names(&["arg1", "arg2", "arg3"], true),
    ]));
    entries.extend(quick(vec![
        id("QuickError4"),
        pu(','),
        lit("Error 4 Description: Zero arguments, trailing comma"),
        pu(','),
    ]));
    let mut input = types_item();
    input.extend(errors_block(entries));
    let output = expand_ok(input);

    let mut expected_entries = normal_entries();
    expected_entries.extend(vec![
        id("QuickError1"),
        canonical_body(
            lit("Error 1 Description: Zero arguments"),
            vec![lit("Error 1 Description: Zero arguments")],
        ),
        id("QuickError2"),
        params(&["arg1"]),
        canonical_body(
            lit("Error 2 Description: One Argument"),
            vec![lit("Error 2 Description: One Argument: {}"), pu(','), id("arg1")],
        ),
        id("QuickError3"),
        params(&["arg1", "arg2", "arg3"]),
        canonical_body(
            lit("Error 3 Description: Three Arguments"),
            vec![
                lit("Error 3 Description: Three Arguments: {}, {}, {}"),
                pu(','),
                id("arg1"),
                pu(','),
                id("arg2"),
                pu(','),
                id("arg3"),
            ],
        ),
        id("QuickError4"),
        canonical_body(
            lit("Error 4 Description: Zero arguments, trailing comma"),
            vec![lit("Error 4 Description: Zero arguments, trailing comma")],
        ),
    ]);
    let mut expected_items = types_item();
    expected_items.extend(errors_block(expected_entries));
    assert_eq!(show(&output), show(&invocation(expected_items)));
}

#[test]
fn expand_macro() {
    let mut entries = normal_entries();
    entries.extend(quick(vec![id("QuickError1"), pu(','), lit("Error 1 Description: Zero arguments")]));
    entries.extend(quick(vec![
        id("QuickError2"),
        pu(','),
        lit("Error 2 Description: One Argument"),
        pu(','),
        names(&["arg1"], true),
    ]));
    entries.extend(quick(vec![
        id("QuickError3"),
        pu(','),
        lit("Error 3 Description: Three Arguments"),
        pu(','),
        names(&["arg1", "arg2", "arg3"], true),
    ]));
    let mut input = types_item();
    input.extend(errors_block(entries));
    let output = error_chain_quick(&input);
    assert!(output.is_ok());
}

#[test]
fn zero_argument_expansion() {
    let input = errors_block(quick(vec![id("Name"), pu(','), lit("D")]));
    let out = expand_ok(input);
    let expected = invocation(errors_block(vec![id("Name"), canonical_body(lit("D"), vec![lit("D")])]));
    assert_eq!(show(&out), show(&expected));
}

#[test]
fn multi_argument_expansion() {
    let input = errors_block(quick(vec![id("Name"), pu(','), lit("D"), pu(','), names(&["a", "b"], false)]));
    let out = expand_ok(input);
    let expected = invocation(errors_block(vec![
        id("Name"),
        params(&["a", "b"]),
        canonical_body(lit("D"), vec![lit("D: {}, {}"), pu(','), id("a"), pu(','), id("b")]),
    ]));
    assert_eq!(show(&out), show(&expected));
}

#[test]
fn empty_argument_list_is_no_parameters() {
    let input = errors_block(quick(vec![id("Name"), pu(','), lit("D"), pu(','), names(&[], false)]));
    let out = expand_ok(input);
    let expected = invocation(errors_block(vec![id("Name"), canonical_body(lit("D"), vec![lit("D")])]));
    assert_eq!(show(&out), show(&expected));
}

#[test]
fn trailing_commas_change_nothing() {
    let plain = expand_ok(errors_block(quick(vec![
        id("N"),
        pu(','),
        lit("D"),
        pu(','),
        names(&["a", "b"], false),
    ])));
    let inner = expand_ok(errors_block(quick(vec![
        id("N"),
        pu(','),
        lit("D"),
        pu(','),
        names(&["a", "b"], true),
    ])));
    let both = expand_ok(errors_block(quick(vec![
        id("N"),
        pu(','),
        lit("D"),
        pu(','),
        names(&["a", "b"], true),
        pu(','),
    ])));
    assert_eq!(show(&plain), show(&inner));
    assert_eq!(show(&plain), show(&both));
    let bare = expand_ok(errors_block(quick(vec![id("N"), pu(','), lit("D")])));
    let comma = expand_ok(errors_block(quick(vec![id("N"), pu(','), lit("D"), pu(',')])));
    assert_eq!(show(&bare), show(&comma));
}

#[test]
fn two_trailing_commas_are_rejected() {
    let input = errors_block(quick(vec![id("N"), pu(','), lit("D"), pu(','), pu(',')]));
    assert_eq!(error_chain_quick(&input).unwrap_err(), ParseError::InvalidQuick(Expected::EndOfGroup));
}

#[test]
fn missing_description_is_invalid_quick() {
    let input = errors_block(quick(vec![id("Name")]));
    let e = error_chain_quick(&input).unwrap_err();
    assert_eq!(e, ParseError::InvalidQuick(Expected::Comma));
    assert!(e.is_fatal());
    assert_eq!(e.message(), "Invalid 'quick!()' macro: expected `,`");
}

#[test]
fn malformed_argument_list_is_invalid_quick() {
    let input = errors_block(quick(vec![
        id("Name"),
        pu(','),
        lit("D"),
        pu(','),
        paren(vec![id("a"), id("b")]),
    ]));
    let e = error_chain_quick(&input).unwrap_err();
    assert_eq!(e, ParseError::InvalidQuick(Expected::ArgumentList));
    assert!(e.message().starts_with("Invalid 'quick!()' macro"));
}

#[test]
fn missing_parentheses_is_invalid_quick() {
    let input = errors_block(vec![id("quick"), pu('!'), brace(vec![])]);
    assert_eq!(error_chain_quick(&input).unwrap_err(), ParseError::InvalidQuick(Expected::Parentheses));
}

#[test]
fn non_string_description_is_invalid_quick() {
    let input = errors_block(quick(vec![id("Name"), pu(','), TokenTree::Literal("5".to_string())]));
    assert_eq!(error_chain_quick(&input).unwrap_err(), ParseError::InvalidQuick(Expected::StringLiteral));
    let bytes = errors_block(quick(vec![id("Name"), pu(','), TokenTree::Literal("b\"x\"".to_string())]));
    assert_eq!(error_chain_quick(&bytes).unwrap_err(), ParseError::InvalidQuick(Expected::StringLiteral));
}

#[test]
fn escaped_description_is_decoded_and_reencoded() {
    let desc = TokenTree::Literal("\"say \\\"hi\\\"\"".to_string());
    let input = errors_block(quick(vec![id("N"), pu(','), desc, pu(','), names(&["a"], false)]));
    let out = expand_ok(input);
    let expected = invocation(errors_block(vec![
        id("N"),
        params(&["a"]),
        canonical_body(
            TokenTree::Literal("\"say \\\"hi\\\"\"".to_string()),
            vec![TokenTree::Literal("\"say \\\"hi\\\": {}\"".to_string()), pu(','), id("a")],
        ),
    ]));
    assert_eq!(show(&out), show(&expected));
}

#[test]
fn raw_string_description() {
    let input = errors_block(quick(vec![
        id("N"),
        pu(','),
        TokenTree::Literal("r\"D\"".to_string()),
        pu(','),
        names(&["a"], false),
    ]));
    let out = expand_ok(input);
    let expected = invocation(errors_block(vec![
        id("N"),
        params(&["a"]),
        canonical_body(TokenTree::Literal("r\"D\"".to_string()), vec![lit("D: {}"), pu(','), id("a")]),
    ]));
    assert_eq!(show(&out), show(&expected));
}

#[test]
fn mixed_block_keeps_order() {
    let mut entries = quick(vec![id("A"), pu(','), lit("first")]);
    entries.extend(vec![id("B"), brace(vec![id("description"), paren(vec![lit("second")])])]);
    entries.extend(quick(vec![id("C"), pu(','), lit("third"), pu(','), names(&["x"], false)]));
    let out = expand_ok(errors_block(entries));
    let expected = invocation(errors_block(vec![
        id("A"),
        canonical_body(lit("first"), vec![lit("first")]),
        id("B"),
        brace(vec![id("description"), paren(vec![lit("second")])]),
        id("C"),
        params(&["x"]),
        canonical_body(lit("third"), vec![lit("third: {}"), pu(','), id("x")]),
    ]));
    assert_eq!(show(&out), show(&expected));
}

#[test]
fn empty_block_is_rejected() {
    let input = errors_block(vec![]);
    assert_eq!(error_chain_quick(&input).unwrap_err(), ParseError::EmptyBlock);
    let mut later = types_item();
    later.extend(errors_block(vec![]));
    assert_eq!(error_chain_quick(&later).unwrap_err(), ParseError::EmptyBlock);
}

#[test]
fn empty_input_is_rejected() {
    assert_eq!(error_chain_quick(&vec![]).unwrap_err(), ParseError::EmptyInput);
}

#[test]
fn item_without_identifier_is_rejected() {
    let input = vec![pu(';')];
    assert_eq!(error_chain_quick(&input).unwrap_err(), ParseError::Mismatch(Expected::Identifier));
}

#[test]
fn canonical_input_round_trips() {
    let mut input = types_item();
    input.extend(errors_block(normal_entries()));
    input.push(id("links"));
    input.push(id("foreign_links"));
    input.push(brace(vec![id("Io"), paren(vec![id("io")])]));
    let out = expand_ok(input.clone_tokens());
    assert_eq!(show(&out), show(&invocation(input)));
}

#[test]
fn rewrite_of_canonical_tree_is_identity() {
    let mut input = types_item();
    input.extend(errors_block(normal_entries()));
    let parsed = RootElementVec::parse(&input).unwrap();
    let before = format!("{:?}", parsed);
    let after = format!("{:?}", parsed.process_quick_error());
    assert_eq!(before, after);
}

#[test]
fn block_that_is_not_entries_passes_through() {
    let input = vec![id("errors"), brace(vec![id("quick"), paren(vec![id("A")])])];
    let out = expand_ok(input);
    let expected = invocation(vec![id("errors"), brace(vec![id("quick"), paren(vec![id("A")])])]);
    assert_eq!(show(&out), show(&expected));
}

trait CloneTokens {
    fn clone_tokens(&self) -> Vec<TokenTree>;
}

impl CloneTokens for Vec<TokenTree> {
    fn clone_tokens(&self) -> Vec<TokenTree> {
        self.iter().map(quick_errors::tokens::copy_tree).collect()
    }
}

fn sample_quick(args: &[&str]) -> quick_errors::quick::QuickError {
    quick_errors::quick::QuickError {
        err_ident: "Name".to_string(),
        desc: "\"D\"".to_string(),
        desc_value: "D".to_string(),
        inner_args: args.iter().map(|a| a.to_string()).collect(),
    }
}

#[test]
fn display_message_has_one_placeholder_per_argument() {
    assert_eq!(sample_quick(&[]).display_message(), "D:");
    assert_eq!(sample_quick(&["a"]).display_message(), "D: {}");
    assert_eq!(sample_quick(&["a", "b", "c"]).display_message(), "D: {}, {}, {}");
}

#[test]
fn canonical_entry_uses_the_given_message_literal() {
    let n = sample_quick(&["a"]).canonical_with_message("\"M\"".to_string());
    let mut out = Vec::new();
    n.to_tokens(&mut out);
    let expected = vec![
        id("Name"),
        params(&["a"]),
        canonical_body(lit("D"), vec![lit("M"), pu(','), id("a")]),
    ];
    assert_eq!(show(&out), show(&expected));
    let z = sample_quick(&[]).canonical_with_message("\"M\"".to_string());
    let mut out = Vec::new();
    z.to_tokens(&mut out);
    assert_eq!(show(&out), show(&vec![id("Name"), canonical_body(lit("D"), vec![lit("D")])]));
}
