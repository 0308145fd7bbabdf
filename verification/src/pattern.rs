//! Compiled regular expressions, reached through the `regex` crate.
//!
//! A [`Pattern`] is built only by [`Pattern::compile`], which keeps the source
//! text beside the compiled expression; every match operation is stated over that
//! source text and the haystack.

use vstd::prelude::*;

verus! {

#[verifier::external_type_specification]
#[verifier::external_body]
pub struct ExRegex(regex::Regex);

/// Whether `regex::Regex::new` accepts `source`.
pub uninterp spec fn regex_valid(source: Seq<char>) -> bool;

/// What `Regex::is_match` returns for the expression compiled from `source`.
pub uninterp spec fn regex_is_match(source: Seq<char>, text: Seq<char>) -> bool;

/// What `Regex::captures` then `Captures::get(group)` give for the leftmost match:
/// `None` when nothing matches, `Some(None)` when the group did not take part.
pub uninterp spec fn regex_capture(source: Seq<char>, text: Seq<char>, group: nat) -> Option<
    Option<Seq<char>>,
>;

/// The text of capture group `group` in each successive non-overlapping match,
/// as `Regex::captures_iter` yields them.
pub uninterp spec fn regex_capture_all(source: Seq<char>, text: Seq<char>, group: nat) -> Seq<
    Option<Seq<char>>,
>;

/// What `Regex::replace` returns: `text` with its leftmost match replaced by `rep`,
/// where `$` references to capture groups in `rep` are expanded as that method does.
pub uninterp spec fn regex_replace(source: Seq<char>, text: Seq<char>, rep: Seq<char>) -> Seq<
    char,
>;

/// The view of an optional string.
pub open spec fn opt_view(o: Option<String>) -> Option<Seq<char>> {
    match o {
        Some(s) => Some(s@),
        None => None,
    }
}

/// A regular expression together with the text it was compiled from.
pub struct Pattern {
    source: String,
    re: regex::Regex,
}

impl Pattern {
    /// The text this expression was compiled from.
    pub closed spec fn source(&self) -> Seq<char> {
        self.source@
    }

    /// Compiles `source` with `regex::Regex::new`; `None` exactly when the crate
    /// rejects it.
    #[verifier::external_body]
    pub(crate) fn compile(source: &str) -> (r: Option<Pattern>)
        ensures
            r is Some <==> regex_valid(source@),
            r matches Some(p) ==> p.source() == source@,
    {
        match regex::Regex::new(source) {
            Ok(re) => Some(Pattern { source: source.to_string(), re }),
            Err(_) => None,
        }
    }

    /// Whether the expression matches somewhere in `text` (`Regex::is_match`).
    #[verifier::external_body]
    pub(crate) fn is_match(&self, text: &str) -> (r: bool)
        ensures
            r == regex_is_match(self.source(), text@),
    {
        self.re.is_match(text)
    }

    /// Capture group `group` of the leftmost match (`Regex::captures`).
    #[verifier::external_body]
    pub(crate) fn capture(&self, text: &str, group: usize) -> (r: Option<Option<String>>)
        ensures
            match r {
                Some(g) => regex_capture(self.source(), text@, group as nat) == Some(opt_view(g)),
                None => regex_capture(self.source(), text@, group as nat) is None,
            },
    {
        match self.re.captures(text) {
            Some(caps) => Some(caps.get(group).map(|m| m.as_str().to_string())),
            None => None,
        }
    }

    /// Capture group `group` of every successive match (`Regex::captures_iter`).
    #[verifier::external_body]
    pub(crate) fn capture_all(&self, text: &str, group: usize) -> (r: Vec<Option<String>>)
        ensures
            r@.map_values(|g: Option<String>| opt_view(g)) == regex_capture_all(
                self.source(),
                text@,
                group as nat,
            ),
    {
        self.re.captures_iter(text).map(|c| c.get(group).map(|m| m.as_str().to_string())).collect()
    }

    /// `text` with the leftmost match replaced by `rep` (`Regex::replace`, which
    /// expands `$` group references in `rep`).
    #[verifier::external_body]
    pub(crate) fn replace(&self, text: &str, rep: &str) -> (r: String)
        ensures
            r@ == regex_replace(self.source(), text@, rep@),
    {
        self.re.replace(text, rep).into_owned()
    }
}

} // verus!
