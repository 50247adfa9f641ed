//! Compiled regular expressions, kept together with their source text.
//!
//! Matching itself is done by the `regex` crate. What it returns is named
//! by the uninterpreted functions below, as functions of the pattern's
//! source text and of the text searched.

use vstd::prelude::*;

verus! {

#[verifier::external_type_specification]
#[verifier::external_body]
pub struct ExRegex(regex::Regex);

#[verifier::external_type_specification]
#[verifier::external_body]
pub struct ExRegexError(regex::Error);

/// Whether a pattern is accepted by the regex compiler.
pub uninterp spec fn regex_compiles(p: Seq<char>) -> bool;

/// Whether a pattern matches somewhere in a text.
pub uninterp spec fn regex_finds(p: Seq<char>, t: Seq<char>) -> bool;

/// For each successive non-overlapping match of a pattern in a text, the
/// text of each capture group by group index (`None` where it took no part).
pub uninterp spec fn regex_matches(p: Seq<char>, t: Seq<char>) -> Seq<Seq<Option<Seq<char>>>>;

/// The pieces of a text that lie between the matches of a pattern.
pub uninterp spec fn regex_pieces(p: Seq<char>, t: Seq<char>) -> Seq<Seq<char>>;

/// The name of each capture group of a pattern, by group index.
pub uninterp spec fn regex_group_names(p: Seq<char>) -> Seq<Option<Seq<char>>>;

pub open spec fn opt_view(o: Option<String>) -> Option<Seq<char>> {
    match o {
        Some(s) => Some(s@),
        None => None,
    }
}

pub open spec fn opts_view(v: Seq<Option<String>>) -> Seq<Option<Seq<char>>> {
    v.map_values(|o: Option<String>| opt_view(o))
}

pub open spec fn strings_view(v: Seq<String>) -> Seq<Seq<char>> {
    v.map_values(|s: String| s@)
}

/// Relies on `regex::Regex::new`, which compiles a pattern or reports why
/// it cannot.
#[verifier::external_body]
fn compile(p: &str) -> (r: Result<regex::Regex, regex::Error>)
    ensures
        r is Ok <==> regex_compiles(p@),
{
    regex::Regex::new(p)
}

/// A regular expression: its source text and its compiled form.
///
/// The only constructor is [`Rx::new`], so `re` is always the compiled
/// form of `source`.
#[derive(Debug)]
pub struct Rx {
    source: String,
    re: regex::Regex,
}

impl View for Rx {
    type V = Seq<char>;

    closed spec fn view(&self) -> Seq<char> {
        self.source@
    }
}

impl Rx {
    /// Compiles a pattern; fails with a message where the pattern is not a
    /// valid regular expression.
    pub fn new(source: &str) -> (r: Result<Rx, String>)
        ensures
            r is Ok <==> regex_compiles(source@),
            r matches Ok(rx) ==> rx@ == source@,
    {
        match compile(source) {
            Ok(re) => Ok(Rx { source: source.to_owned(), re }),
            Err(_) => Err(crate::text::concat("invalid regular expression: ", source)),
        }
    }

    /// The source text of the pattern.
    pub fn as_str(&self) -> (r: &str)
        ensures
            r@ == self@,
    {
        self.source.as_str()
    }

    /// Relies on `regex::Regex::is_match`: whether the pattern matches
    /// anywhere in `t`.
    #[verifier::external_body]
    pub(crate) fn is_match(&self, t: &str) -> (r: bool)
        ensures
            r == regex_finds(self@, t@),
    {
        self.re.is_match(t)
    }

    /// Relies on `regex::Regex::captures_iter`: the capture groups of each
    /// successive non-overlapping match, none where the pattern does not match.
    #[verifier::external_body]
    pub(crate) fn all_captures(&self, t: &str) -> (r: Vec<Vec<Option<String>>>)
        ensures
            r@.map_values(|g: Vec<Option<String>>| opts_view(g@)) == regex_matches(self@, t@),
            r@.len() == 0 <==> !regex_finds(self@, t@),
    {
        self.re.captures_iter(t).map(
            |c| c.iter().map(|m| m.map(|m| m.as_str().to_string())).collect(),
        ).collect()
    }

    /// Relies on `regex::Regex::split`: the pieces of `t` between matches,
    /// which is `t` alone where the pattern does not match.
    #[verifier::external_body]
    pub(crate) fn split(&self, t: &str) -> (r: Vec<String>)
        ensures
            strings_view(r@) == regex_pieces(self@, t@),
            !regex_finds(self@, t@) ==> strings_view(r@) == seq![t@],
    {
        self.re.split(t).map(|s| s.to_string()).collect()
    }

    /// Relies on `regex::Regex::capture_names`: the name of each group by
    /// index, `None` for the whole match and for unnamed groups.
    #[verifier::external_body]
    pub(crate) fn group_names(&self) -> (r: Vec<Option<String>>)
        ensures
            opts_view(r@) == regex_group_names(self@),
    {
        self.re.capture_names().map(|n| n.map(|s| s.to_string())).collect()
    }
}

impl PartialEq for Rx {
    fn eq(&self, other: &Rx) -> (r: bool)
        ensures
            r == (self@ == other@),
    {
        self.source == other.source
    }
}

impl vstd::std_specs::cmp::PartialEqSpecImpl for Rx {
    open spec fn obeys_eq_spec() -> bool {
        true
    }

    open spec fn eq_spec(&self, other: &Rx) -> bool {
        self@ == other@
    }
}

} // verus!
