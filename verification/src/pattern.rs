//! Compiled search patterns: a regular expression with its case-sensitivity
//! flag, and a glob filter. The outside engines decide compilation and
//! matching; both are functions of the pattern text (and flag) and the input
//! alone, named here so that the search contracts can speak of them.

use vstd::prelude::*;

verus! {

#[verifier::external_type_specification]
#[verifier::external_body]
pub struct ExRegex(regex::Regex);

#[verifier::external_type_specification]
#[verifier::external_body]
pub struct ExGlobPattern(glob::Pattern);

/// Whether `pattern` is a valid regular expression under the given case
/// sensitivity, as the regex engine decides it.
pub uninterp spec fn regex_compiles(pattern: Seq<char>, case_sensitive: bool) -> bool;

/// Whether the regular expression `pattern`, under the given case
/// sensitivity, matches anywhere inside `text`.
pub uninterp spec fn regex_is_match(pattern: Seq<char>, case_sensitive: bool, text: Seq<char>) -> bool;

/// Whether `pattern` is a valid glob pattern, as the glob engine decides it.
pub uninterp spec fn glob_compiles(pattern: Seq<char>) -> bool;

/// Whether the glob `pattern` matches `path`.
pub uninterp spec fn glob_matches(pattern: Seq<char>, path: Seq<char>) -> bool;

/// A compiled regular expression together with the pattern text and case
/// flag it was compiled from. Only `compile` constructs values of this type,
/// so the compiled engine always belongs to the recorded pattern and flag.
pub struct CompiledPattern {
    regex: regex::Regex,
    pattern: String,
    case_sensitive: bool,
}

impl CompiledPattern {
    /// The pattern text this engine was compiled from.
    pub closed spec fn pattern_spec(&self) -> Seq<char> {
        self.pattern@
    }

    /// The case sensitivity this engine was compiled with.
    pub closed spec fn case_sensitive_spec(&self) -> bool {
        self.case_sensitive
    }

    /// Relies on regex::RegexBuilder::build: compilation succeeds or fails
    /// as a function of the pattern text and the case-insensitivity flag
    /// alone; on failure the engine's rendered error is returned.
    #[verifier::external_body]
    pub fn compile(pattern: &str, case_sensitive: bool) -> (r: Result<CompiledPattern, String>)
        ensures
            r is Ok <==> regex_compiles(pattern@, case_sensitive),
            r is Ok ==> r->Ok_0.pattern_spec() == pattern@ && r->Ok_0.case_sensitive_spec()
                == case_sensitive,
    {
        match regex::RegexBuilder::new(pattern).case_insensitive(!case_sensitive).build() {
            Ok(re) => Ok(CompiledPattern { regex: re, pattern: pattern.to_string(), case_sensitive }),
            Err(e) => Err(e.to_string()),
        }
    }

    /// Relies on regex::Regex::is_match: whether the pattern matches
    /// anywhere in `text`, a function of the pattern, its case flag and the
    /// text alone.
    #[verifier::external_body]
    pub fn is_match(&self, text: &str) -> (r: bool)
        ensures
            r == regex_is_match(self.pattern_spec(), self.case_sensitive_spec(), text@),
    {
        self.regex.is_match(text)
    }
}

/// A compiled glob filter together with the pattern text it was compiled
/// from. Only `compile` constructs values of this type.
pub struct CompiledGlob {
    glob: glob::Pattern,
    pattern: String,
}

impl CompiledGlob {
    /// The pattern text this filter was compiled from.
    pub closed spec fn pattern_spec(&self) -> Seq<char> {
        self.pattern@
    }

    /// Relies on glob::Pattern::new: compilation succeeds or fails as a
    /// function of the pattern text alone; on failure the engine's rendered
    /// error is returned.
    #[verifier::external_body]
    pub fn compile(pattern: &str) -> (r: Result<CompiledGlob, String>)
        ensures
            r is Ok <==> glob_compiles(pattern@),
            r is Ok ==> r->Ok_0.pattern_spec() == pattern@,
    {
        match glob::Pattern::new(pattern) {
            Ok(g) => Ok(CompiledGlob { glob: g, pattern: pattern.to_string() }),
            Err(e) => Err(e.to_string()),
        }
    }

    /// Relies on glob::Pattern::matches: whether the glob matches `path`, a
    /// function of the pattern and the path alone.
    #[verifier::external_body]
    pub fn matches(&self, path: &str) -> (r: bool)
        ensures
            r == glob_matches(self.pattern_spec(), path@),
    {
        self.glob.matches(path)
    }
}

} // verus!
