//! Lookup table for Roman numerals
//!
//! The table is read once, before any layout, from a list of numerals
//! separated by white space, and is never changed afterwards.

use vstd::prelude::*;

verus! {

/// The white-space separated words of a text, as std's
/// `str::split_whitespace` gives them
pub uninterp spec fn words_of(s: Seq<char>) -> Seq<Seq<char>>;

/// Relies on std's `str::split_whitespace`: the words depend on the
/// characters alone.
#[verifier::external_body]
fn split_words(s: &str) -> (r: Vec<String>)
    ensures
        r@.map_values(|w: String| w@) == words_of(s@),
{
    s.split_whitespace().map(|w| w.to_string()).collect()
}

/// An ordered list of Roman numerals
pub struct RomanNumerals {
    pub numerals: Vec<String>,
}

impl RomanNumerals {
    /// The numerals listed in a text, separated by white space
    pub fn from_text(text: &str) -> (r: RomanNumerals)
        ensures
            r.numerals@.map_values(|w: String| w@) == words_of(text@),
    {
        RomanNumerals { numerals: split_words(text) }
    }

    /// The numeral for `i`, counting from 1 up to the number of entries
    /// in the table; none otherwise.
    pub fn numeral(&self, i: usize) -> (r: Option<&str>)
        ensures
            r.is_some() == (1 <= i <= self.numerals@.len()),
            r.is_some() ==> r->Some_0@ == self.numerals@[i - 1]@,
    {
        if i >= 1 && i <= self.numerals.len() {
            Some(self.numerals[i - 1].as_str())
        } else {
            None
        }
    }
}

} // verus!
