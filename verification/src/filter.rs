//! Name filters: a pattern that a file's base name must match for the file
//! to be listed or served.
//!
//! A filter holds its pattern as text, and the pattern is compiled where a
//! name is judged: what a compiled pattern holds cannot be seen from here,
//! and whether it matches depends on the pattern and the name alone.

use vstd::prelude::*;

verus! {

/// Whether `pattern` is a regular expression that `regex::Regex::new`
/// accepts: one that is well formed and stays within the size that the
/// crate allows by default. That size is counted in bytes of the compiled
/// pattern, so for a pattern close to the limit the answer depends on the
/// width of the target's pointers; on a given target it depends on the
/// pattern alone.
pub uninterp spec fn pattern_compiles(pattern: Seq<char>) -> bool;

/// Whether the regular expression `pattern` matches anywhere in `text`, as
/// `regex::Regex::is_match` finds it.
pub uninterp spec fn pattern_matches(pattern: Seq<char>, text: Seq<char>) -> bool;

/// Compiles `pattern` with `regex::Regex::new` and searches `text` with
/// `regex::Regex::is_match`. Whether the pattern is accepted depends on the
/// pattern alone, and whether it matches on the pattern and the text alone;
/// neither call panics. `None` stands for a pattern that is refused.
#[verifier::external_body]
fn search(pattern: &str, text: &str) -> (found: Option<bool>)
    ensures
        found is Some <==> pattern_compiles(pattern@),
        found matches Some(hit) ==> hit == pattern_matches(pattern@, text@),
{
    match regex::Regex::new(pattern) {
        Ok(re) => Some(re.is_match(text)),
        Err(_) => None,
    }
}

/// A name filter.
#[derive(Clone, Debug, PartialEq, Eq)]
pub struct NameFilter {
    pub pattern: String,
}

impl DeepView for NameFilter {
    type V = Seq<char>;

    open spec fn deep_view(&self) -> Seq<char> {
        self.pattern@
    }
}

/// Whether the filter with this pattern lets `name` through: the names
/// that the pattern matches. A pattern that is no regular expression
/// filters nothing.
pub open spec fn admits(pattern: Seq<char>, name: Seq<char>) -> bool {
    pattern_compiles(pattern) ==> pattern_matches(pattern, name)
}

/// Whether `name` passes an optional filter.
pub open spec fn allowed(filter: Option<Seq<char>>, name: Seq<char>) -> bool {
    match filter {
        Some(pattern) => admits(pattern, name),
        None => true,
    }
}

/// The filter that a configured pattern gives: none where no pattern is
/// configured, and none where the pattern is no regular expression.
pub open spec fn configured(pattern: Option<Seq<char>>) -> Option<Seq<char>> {
    match pattern {
        Some(text) => if pattern_compiles(text) {
            Some(text)
        } else {
            None
        },
        None => None,
    }
}

impl NameFilter {
    /// The filter with the given pattern, where the pattern is a regular
    /// expression.
    pub fn new(pattern: String) -> (filter: Option<NameFilter>)
        ensures
            filter.deep_view() == configured(Some(pattern@)),
    {
        if search(pattern.as_str(), "").is_some() {
            Some(NameFilter { pattern })
        } else {
            None
        }
    }

    /// Whether the filter lets `name` through.
    pub fn accepts(&self, name: &str) -> (ok: bool)
        ensures
            ok == admits(self.deep_view(), name@),
    {
        match search(self.pattern.as_str(), name) {
            Some(hit) => hit,
            None => true,
        }
    }
}

/// Whether `name` passes an optional filter.
pub fn name_allowed(filter: &Option<NameFilter>, name: &str) -> (ok: bool)
    ensures
        ok == allowed(filter.deep_view(), name@),
{
    match filter {
        Some(f) => f.accepts(name),
        None => true,
    }
}

/// A filter that was made from a pattern lets through exactly the names
/// that its pattern matches.
pub proof fn lemma_configured_filter_matches(pattern: Option<Seq<char>>, name: Seq<char>)
    ensures
        configured(pattern) matches Some(text) ==> (allowed(configured(pattern), name)
            <==> pattern_matches(text, name)),
        configured(pattern) is None ==> allowed(configured(pattern), name),
{
}

} // verus!
