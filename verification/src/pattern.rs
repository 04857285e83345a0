//! Compiled regular expressions of the `regex` crate, and what the library
//! takes on trust about them.

use crate::model::MatchPosition;
use crate::text::spans_within;
use regex::Regex;
use regex::RegexBuilder;
use vstd::prelude::*;
use vstd::string::StringSliceAdditionalSpecFns;

verus! {

/// The `regex` crate's compiled expression. Proofs see nothing inside it.
#[verifier::external_type_specification]
#[verifier::external_body]
pub struct ExRegex(Regex);

/// The `regex` crate's compile error.
#[verifier::external_type_specification]
#[verifier::external_body]
pub struct ExRegexError(regex::Error);

/// What `RegexBuilder::build` gives for a pattern and a case flag: the
/// compiled expression, or nothing where the pattern is refused.
pub uninterp spec fn regex_built(pattern: Seq<char>, case_insensitive: bool) -> Option<Regex>;

/// Whether `Regex::is_match` finds the expression anywhere in the text.
pub uninterp spec fn regex_matches(re: Regex, text: Seq<char>) -> bool;

/// The matches that `Regex::find_iter` yields on the text, in order, each as
/// its byte offset and byte length.
pub uninterp spec fn regex_spans(re: Regex, text: Seq<char>) -> Seq<MatchPosition>;

/// The text of the match that `Regex::find` gives, if there is one.
pub uninterp spec fn regex_first_match(re: Regex, text: Seq<char>) -> Option<Seq<char>>;

/// A character that the `regex` crate gives a meaning in a pattern.
pub open spec fn is_meta_char(c: char) -> bool {
    ||| c == '\\'
    ||| c == '.'
    ||| c == '+'
    ||| c == '*'
    ||| c == '?'
    ||| c == '('
    ||| c == ')'
    ||| c == '|'
    ||| c == '['
    ||| c == ']'
    ||| c == '{'
    ||| c == '}'
    ||| c == '^'
    ||| c == '$'
    ||| c == '#'
    ||| c == '&'
    ||| c == '-'
    ||| c == '~'
}

/// The text with a backslash put before each of its meta characters.
pub open spec fn escaped(text: Seq<char>) -> Seq<char>
    decreases text.len(),
{
    if text.len() == 0 {
        Seq::empty()
    } else if is_meta_char(text[0]) {
        seq!['\\', text[0]] + escaped(text.drop_first())
    } else {
        seq![text[0]] + escaped(text.drop_first())
    }
}

/// Compiles `pattern` with `RegexBuilder`, case-insensitively if asked.
/// Trusted: the outcome is the one that `regex_built` names for these
/// arguments, so equal arguments compile to equal expressions.
#[verifier::external_body]
pub(crate) fn regex_build(pattern: &str, case_insensitive: bool) -> (r: Result<
    Regex,
    regex::Error,
>)
    ensures
        r is Ok <==> regex_built(pattern@, case_insensitive) is Some,
        r is Ok ==> regex_built(pattern@, case_insensitive) == Some(r->Ok_0),
{
    let mut builder = RegexBuilder::new(pattern);
    builder.case_insensitive(case_insensitive);
    builder.build()
}

/// Renders a compile error of the `regex` crate as text. Nothing is claimed
/// of the text.
#[verifier::external_body]
pub(crate) fn regex_error_text(e: &regex::Error) -> String {
    e.to_string()
}

/// Calls `Regex::is_match`. Trusted: the answer is the one that
/// `regex_matches` names.
#[verifier::external_body]
pub(crate) fn regex_is_match(re: &Regex, text: &str) -> (b: bool)
    ensures
        b == regex_matches(*re, text@),
{
    re.is_match(text)
}

/// Collects what `Regex::find_iter` yields. Trusted: the spans are those
/// that `regex_spans` names, and each lies inside the text, as the crate
/// promises of every match.
#[verifier::external_body]
pub(crate) fn regex_find_all(re: &Regex, text: &str) -> (spans: Vec<MatchPosition>)
    ensures
        spans@ == regex_spans(*re, text@),
        spans_within(spans@, text.spec_bytes().len() as int),
{
    re.find_iter(text).map(|m| MatchPosition { offset: m.start(), length: m.len() }).collect()
}

/// Calls `Regex::find` and copies the matched text out. Trusted: the text is
/// the one that `regex_first_match` names.
#[verifier::external_body]
pub(crate) fn regex_find_first(re: &Regex, text: &str) -> (found: Option<String>)
    ensures
        found is Some <==> regex_first_match(*re, text@) is Some,
        found is Some ==> regex_first_match(*re, text@) == Some(found->0@),
{
    re.find(text).map(|m| m.as_str().to_string())
}

/// Calls `regex::escape`. Trusted: the result is the text with a backslash
/// before each meta character, as the crate's source writes it.
#[verifier::external_body]
pub(crate) fn regex_escape(text: &str) -> (r: String)
    ensures
        r@ == escaped(text@),
{
    regex::escape(text)
}

} // verus!
