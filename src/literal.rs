//! String literals: recognising and decoding them, and writing new ones.
//!
//! Both directions are left to `syn` and `proc-macro2`; the results are named
//! here so that contracts elsewhere can speak of them.
use vstd::prelude::*;

verus! {

/// What the literal token with source text `repr` denotes, when it is a string literal.
pub uninterp spec fn str_lit_value(repr: Seq<char>) -> Option<Seq<char>>;

/// The source text of a string literal that denotes `value`.
pub uninterp spec fn str_lit_of(value: Seq<char>) -> Seq<char>;

/// Relies on `syn::Lit::new` to tell whether the literal token `repr` is a
/// string literal, and on `syn::LitStr::value` for the text it denotes.
#[verifier::external_body]
pub(crate) fn string_literal_value(repr: &String) -> (r: Option<String>)
    ensures
        match r {
            Some(v) => str_lit_value(repr@) == Some(v@),
            None => str_lit_value(repr@) is None,
        },
{
    match repr.parse::<proc_macro2::Literal>() {
        Ok(token) => match syn::Lit::new(token) {
            syn::Lit::Str(s) => Some(s.value()),
            _ => None,
        },
        Err(_) => None,
    }
}

/// Relies on `proc_macro2::Literal::string` for the source text of a string
/// literal denoting `value`.
#[verifier::external_body]
pub(crate) fn string_literal(value: &String) -> (r: String)
    ensures
        r@ == str_lit_of(value@),
{
    proc_macro2::Literal::string(value.as_str()).to_string()
}

} // verus!
