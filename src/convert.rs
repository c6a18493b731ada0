use vstd::prelude::*;

verus! {

/// Relies on `str::chars` collected into a `Vec`: one element per character, in order.
#[verifier::external_body]
pub(crate) fn chars_of(s: &str) -> (r: Vec<char>)
    ensures
        r@ == s@,
{
    s.chars().collect()
}

/// Relies on `String: FromIterator<char>`: the characters in order.
#[verifier::external_body]
pub(crate) fn string_of(v: &Vec<char>) -> (r: String)
    ensures
        r@ == v@,
{
    v.iter().collect()
}

/// What `char::to_uppercase` yields for a character.
pub uninterp spec fn upper_of(c: char) -> Seq<char>;

/// Relies on `char::to_uppercase`: the upper-case mapping of one character,
/// which may be several characters long.
#[verifier::external_body]
pub(crate) fn uppercase_of(c: char) -> (r: Vec<char>)
    ensures
        r@ == upper_of(c),
{
    c.to_uppercase().collect()
}

/// What `Regex::new(pattern)` followed by `replace_all(s, rep)` yields, when the
/// pattern compiles.
pub uninterp spec fn regex_replaced(pattern: Seq<char>, s: Seq<char>, rep: Seq<char>) -> Seq<char>;

/// Whether `Regex::new` accepts a pattern.
pub uninterp spec fn regex_compiles(pattern: Seq<char>) -> bool;

/// Relies on `regex::Regex::new` and `Regex::replace_all`: `None` exactly when
/// the pattern does not compile, else the rewritten text.
#[verifier::external_body]
pub(crate) fn regex_replace_all(pattern: &str, s: &str, rep: &str) -> (r: Option<String>)
    ensures
        r is Some == regex_compiles(pattern@),
        r matches Some(t) ==> t@ == regex_replaced(pattern@, s@, rep@),
{
    match regex::Regex::new(pattern) {
        Ok(re) => Some(re.replace_all(s, rep).to_string()),
        Err(_) => None,
    }
}

} // verus!
