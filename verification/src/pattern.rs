//! Regular-expression matching and case folding, supplied by the `regex`
//! crate and by `str::to_lowercase`. The results of both are named by
//! uninterpreted spec functions: compiled-pattern validity and the match
//! outcome depend on the pattern and haystack strings alone.

use vstd::prelude::*;

verus! {

/// Whether `regex::Regex::new` accepts the pattern.
pub uninterp spec fn regex_valid(pat: Seq<char>) -> bool;

/// What `regex::Regex::is_match` returns for a pattern and a haystack.
pub uninterp spec fn regex_match(pat: Seq<char>, text: Seq<char>) -> bool;

/// What `str::to_lowercase` returns for a string.
pub uninterp spec fn lower_of(s: Seq<char>) -> Seq<char>;

#[verifier::external_type_specification]
#[verifier::external_body]
pub struct ExRegex(regex::Regex);

/// A compiled regular expression together with the pattern it was built
/// from, so that contracts can speak of the pattern.
pub struct CompiledRegex {
    re: regex::Regex,
    src: String,
}

impl CompiledRegex {
    /// The pattern this regular expression was compiled from.
    pub closed spec fn pattern(self) -> Seq<char> {
        self.src@
    }

    /// The stored pattern text.
    pub fn pattern_str(&self) -> (r: &str)
        ensures
            r@ == self.pattern(),
    {
        self.src.as_str()
    }
}

/// Relies on `regex::Regex::new`: whether compilation succeeds depends on
/// the pattern string alone.
#[verifier::external_body]
pub fn regex_compile(pat: &str) -> (r: Option<CompiledRegex>)
    ensures
        r is Some <==> regex_valid(pat@),
        r matches Some(c) ==> c.pattern() == pat@,
{
    match regex::Regex::new(pat) {
        Ok(re) => Some(CompiledRegex { re, src: pat.to_owned() }),
        Err(_) => None,
    }
}

/// Relies on `regex::Regex::is_match`: the result depends on the compiled
/// pattern and the haystack alone.
#[verifier::external_body]
pub fn regex_is_match(re: &CompiledRegex, text: &str) -> (r: bool)
    ensures
        r == regex_match(re.pattern(), text@),
{
    re.re.is_match(text)
}

/// Relies on `str::to_lowercase`: the result depends on the characters
/// alone, and an empty string stays empty.
#[verifier::external_body]
pub fn lowercase(s: &str) -> (r: String)
    ensures
        r@ == lower_of(s@),
        s@.len() == 0 ==> r@.len() == 0,
{
    s.to_lowercase()
}

} // verus!
