use vstd::prelude::*;
use crate::text::{eq_str, push_char, push_chars, chars_of};

verus! {

pub open spec fn raw_prefix() -> Seq<char> {
    seq!['r', '#']
}

/// An identifier as it is compared and displayed: without its `r#` prefix.
pub open spec fn unraw(s: Seq<char>) -> Seq<char> {
    if s.len() >= 2 && s.subrange(0, 2) == raw_prefix() {
        s.subrange(2, s.len() as int)
    } else {
        s
    }
}

/// Whether the text parses as one identifier that is not a keyword, as the
/// host language's parser decides it.
pub uninterp spec fn parses_as_ident(s: Seq<char>) -> bool;

/// Relies on `syn::parse_str::<syn::Ident>`: `Ok` exactly when the text is a
/// single identifier that is not a keyword.
#[verifier::external_body]
fn ident_parses(s: &str) -> (r: bool)
    ensures
        r == parses_as_ident(s@),
{
    syn::parse_str::<syn::Ident>(s).is_ok()
}

/// The identifiers that can never be written raw.
pub open spec fn never_raw(s: Seq<char>) -> bool {
    s == "_"@ || s == "super"@ || s == "self"@ || s == "Self"@ || s == "crate"@
}

/// The form in which an identifier is written as a local variable: its
/// unraw text, given the `r#` prefix again where that text is a keyword that
/// may be written raw.
pub open spec fn local_form(s: Seq<char>) -> Seq<char> {
    let u = unraw(s);
    if !parses_as_ident(u) && !never_raw(u) {
        raw_prefix() + u
    } else {
        u
    }
}

pub fn is_raw(s: &Vec<char>) -> (r: bool)
    ensures
        r == (s@.len() >= 2 && s@.subrange(0, 2) == raw_prefix()),
{
    if s.len() >= 2 && s[0] == 'r' && s[1] == '#' {
        assert(s@.subrange(0, 2) =~= raw_prefix());
        true
    } else {
        proof {
            if s@.len() >= 2 {
                assert(s@.subrange(0, 2)[0] == s@[0]);
                assert(s@.subrange(0, 2)[1] == s@[1]);
            }
        }
        false
    }
}

/// The identifier without its `r#` prefix.
pub fn unraw_of(s: &String) -> (r: String)
    ensures
        r@ == unraw(s@),
{
    let cs = chars_of(s.as_str());
    let mut r = String::new();
    if is_raw(&cs) {
        push_chars(&mut r, &cs, 2, cs.len());
    } else {
        push_chars(&mut r, &cs, 0, cs.len());
        assert(cs@.subrange(0, cs@.len() as int) =~= cs@);
    }
    r
}

fn is_never_raw(u: &String) -> (r: bool)
    ensures
        r == never_raw(u@),
{
    eq_str(u.as_str(), "_") || eq_str(u.as_str(), "super") || eq_str(u.as_str(), "self")
        || eq_str(u.as_str(), "Self") || eq_str(u.as_str(), "crate")
}

/// The identifier as a local variable is written (see `local_form`).
pub fn to_local(s: &String) -> (r: String)
    ensures
        r@ == local_form(s@),
{
    let u = unraw_of(s);
    if !ident_parses(u.as_str()) && !is_never_raw(&u) {
        let mut r = String::new();
        push_char(&mut r, 'r');
        push_char(&mut r, '#');
        let uc = chars_of(u.as_str());
        push_chars(&mut r, &uc, 0, uc.len());
        assert(uc@.subrange(0, uc@.len() as int) =~= uc@);
        assert(r@ =~= raw_prefix() + u@);
        r
    } else {
        u
    }
}

/// Whether two identifiers are equal once unraw.
pub fn same_ident(a: &String, b: &String) -> (r: bool)
    ensures
        r == (unraw(a@) == unraw(b@)),
{
    let x = unraw_of(a);
    let y = unraw_of(b);
    x == y
}

} // verus!
