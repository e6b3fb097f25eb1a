use vstd::prelude::*;

verus! {

#[verifier::external_type_specification]
#[verifier::external_body]
pub struct ExRegex(regex::Regex);

/// A compiled regular expression, with the pattern it was compiled from.
pub struct Pattern {
    source: String,
    re: regex::Regex,
}

impl View for Pattern {
    type V = Seq<char>;

    /// The pattern the expression was compiled from.
    closed spec fn view(&self) -> Seq<char> {
        self.source@
    }
}

/// Whether `regex::Regex::new` accepts `pattern`.
pub uninterp spec fn regex_compiles(pattern: Seq<char>) -> bool;

/// What `regex::Regex::find` reports for `pattern` on `haystack`: the text
/// before the leftmost-first match, and the match.
pub uninterp spec fn regex_first_match(pattern: Seq<char>, haystack: Seq<char>) -> Option<
    (Seq<char>, Seq<char>),
>;

/// What `regex::Regex::replace` makes of `haystack`: its leftmost-first
/// match of `pattern` replaced by `replacement`, in which `$name` and `$N`
/// stand for capture groups and `$$` for `$`.
pub uninterp spec fn regex_replace_first(
    pattern: Seq<char>,
    haystack: Seq<char>,
    replacement: Seq<char>,
) -> Seq<char>;

/// Compiles `source` with `regex::Regex::new`. The contract claims that the
/// outcome depends on `source` alone; which patterns compile is the crate's.
#[verifier::external_body]
pub(crate) fn compile_pattern(source: &str) -> (r: Option<Pattern>)
    ensures
        r is Some <==> regex_compiles(source@),
        r matches Some(p) ==> p@ == source@,
{
    match regex::Regex::new(source) {
        Ok(re) => Some(Pattern { source: source.to_string(), re }),
        Err(_) => None,
    }
}

/// The leftmost-first match of `p` in `haystack` (`regex::Regex::find`), as
/// the text before it and the matched text. The contract claims only that
/// the result depends on the pattern and the haystack alone.
#[verifier::external_body]
pub(crate) fn first_match(p: &Pattern, haystack: &str) -> (r: Option<(String, String)>)
    ensures
        match r {
            Some((before, m)) => regex_first_match(p@, haystack@) == Some((before@, m@)),
            None => regex_first_match(p@, haystack@) is None,
        },
{
    match p.re.find(haystack) {
        Some(m) => Some((haystack[..m.start()].to_string(), m.as_str().to_string())),
        None => None,
    }
}

/// `haystack` with the leftmost-first match of `p` replaced by `replacement`
/// (`regex::Regex::replace`). The contract claims only that the result
/// depends on the pattern and the two strings alone.
#[verifier::external_body]
pub(crate) fn replace_first(p: &Pattern, haystack: &str, replacement: &str) -> (r: String)
    ensures
        r@ == regex_replace_first(p@, haystack@, replacement@),
{
    p.re.replace(haystack, replacement).into_owned()
}

} // verus!
