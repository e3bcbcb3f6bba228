use vstd::prelude::*;

verus! {

/// Whether `regex::Regex::new` accepts a pattern text. Compilation succeeds
/// or fails as a function of the pattern text alone.
pub uninterp spec fn regex_compilable(pattern: Seq<char>) -> bool;

/// Whether the regular expression compiled from `pattern` finds a match
/// anywhere in `name`. The result of `regex::Regex::is_match` depends on the
/// pattern text and the haystack alone.
pub uninterp spec fn regex_accepts(pattern: Seq<char>, name: Seq<char>) -> bool;

#[verifier::external_type_specification]
#[verifier::external_body]
pub struct ExRegex(regex::Regex);

/// A compiled filename pattern together with the text it was compiled from.
/// The only constructor is `compile_pattern`, which pairs a regex with its
/// own source text, so contracts may speak of a match as a function of that
/// text.
pub struct Pattern {
    regex: regex::Regex,
    text: String,
}

impl View for Pattern {
    type V = Seq<char>;

    closed spec fn view(&self) -> Seq<char> {
        self.text@
    }
}

/// Relies on `regex::Regex::new`: it compiles the given text, and whether it
/// succeeds depends on that text alone. The compiled regex is stored beside
/// the text it came from.
#[verifier::external_body]
fn compile_pattern(text: &str) -> (r: Option<Pattern>)
    ensures
        r is Some <==> regex_compilable(text@),
        r matches Some(p) ==> p@ == text@,
{
    match regex::Regex::new(text) {
        Ok(regex) => Some(Pattern { regex, text: text.to_owned() }),
        Err(_) => None,
    }
}

/// Relies on `regex::Regex::is_match`: whether the haystack matches is a
/// function of the pattern text the regex was compiled from and the haystack.
#[verifier::external_body]
fn pattern_is_match(pattern: &Pattern, name: &str) -> (r: bool)
    ensures
        r == regex_accepts(pattern@, name@),
{
    pattern.regex.is_match(name)
}

impl Pattern {
    /// Compile a filename pattern; `None` when the text is not a valid
    /// regular expression.
    pub fn new(text: &str) -> (r: Option<Pattern>)
        ensures
            r is Some <==> regex_compilable(text@),
            r matches Some(p) ==> p@ == text@,
    {
        compile_pattern(text)
    }

    /// Whether this pattern finds a match anywhere in `name`.
    pub fn is_match(&self, name: &str) -> (r: bool)
        ensures
            r == regex_accepts(self@, name@),
    {
        pattern_is_match(self, name)
    }
}

} // verus!
