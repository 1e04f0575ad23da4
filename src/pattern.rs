//! Shell-style glob patterns, compiled and matched by the `glob` crate.

use vstd::prelude::*;

verus! {

#[verifier::external_type_specification]
#[verifier::external_body]
pub struct ExPattern(glob::Pattern);

/// Whether `glob::Pattern::new` accepts the pattern text `p`.
pub uninterp spec fn glob_is_valid(p: Seq<char>) -> bool;

/// Whether the glob pattern with text `p` matches the string `s`
/// under `glob::Pattern::matches` (default options: case-sensitive).
pub uninterp spec fn glob_matches(p: Seq<char>, s: Seq<char>) -> bool;

/// Relies on `glob::Pattern::new`: it compiles `p` or reports a syntax
/// error, depending on the text of `p` alone; it does not panic.
#[verifier::external_body]
fn compile_glob(p: &str) -> (r: Option<glob::Pattern>)
    ensures
        r is Some <==> glob_is_valid(p@),
{
    glob::Pattern::new(p).ok()
}

/// Relies on `glob::Pattern::matches`: the answer depends only on the text
/// the pattern was compiled from and on `s`; it does not panic.
/// `GlobPattern` holds a compiled pattern only next to the text it was
/// compiled from.
#[verifier::external_body]
fn matches_compiled(p: &GlobPattern, s: &str) -> (r: bool)
    ensures
        r == glob_matches(p@, s@),
{
    p.compiled.matches(s)
}

/// A glob pattern together with the text it was compiled from.
pub struct GlobPattern {
    source: String,
    compiled: glob::Pattern,
}

impl View for GlobPattern {
    type V = Seq<char>;

    closed spec fn view(&self) -> Seq<char> {
        self.source@
    }
}

impl GlobPattern {
    /// Compiles `p`; `None` when it is not a valid glob pattern.
    pub fn new(p: &str) -> (r: Option<GlobPattern>)
        ensures
            r is Some <==> glob_is_valid(p@),
            r matches Some(g) ==> g@ == p@,
    {
        match compile_glob(p) {
            Some(compiled) => Some(GlobPattern { source: p.to_owned(), compiled }),
            None => None,
        }
    }

    /// The text the pattern was compiled from.
    pub fn as_str(&self) -> (r: &str)
        ensures
            r@ == self@,
    {
        self.source.as_str()
    }

    /// Whether the pattern matches `s`.
    pub fn matches(&self, s: &str) -> (r: bool)
        ensures
            r == glob_matches(self@, s@),
    {
        matches_compiled(self, s)
    }
}

} // verus!
