//! Postscript string escaping

use vstd::prelude::*;

verus! {

/// `s` with a backslash put before each backslash and each parenthesis,
/// the characters that a Postscript string literal reserves
pub open spec fn ps_escaped(s: Seq<char>) -> Seq<char>
    decreases s.len(),
{
    if s.len() == 0 {
        Seq::empty()
    } else {
        let c = s.last();
        if c == '\\' || c == '(' || c == ')' {
            ps_escaped(s.drop_last()) + seq!['\\', c]
        } else {
            ps_escaped(s.drop_last()).push(c)
        }
    }
}

/// Relies on regex's `Regex::replace_all`: every match of the pattern,
/// here any one backslash or parenthesis, is replaced by the replacement,
/// here a backslash followed by the match itself (`$0`), and the text
/// between matches is kept as it is.
#[verifier::external_body]
pub(crate) fn escape_ps(s: &str) -> (r: String)
    ensures
        r@ == ps_escaped(s@),
{
    let reserved = regex::Regex::new(r"[\\()]").unwrap();
    reserved.replace_all(s, "\\$0").to_string()
}

} // verus!
