//! Reading the quality score out of what the tool printed while it compared
//! two files.

use vstd::prelude::*;

verus! {

/// The text that the first group of `pattern` takes in the leftmost match
/// of `pattern` in `text`, as the `regex` crate finds it. `None` where
/// `pattern` is no regular expression, where it matches nowhere, and where
/// its first group takes no part in the match.
pub uninterp spec fn first_capture(pattern: Seq<char>, text: Seq<char>) -> Option<Seq<char>>;

/// Trusted: `regex::Regex::new` on `pattern`, `Regex::captures` on `text`
/// and `Captures::get(1)`. The result is a function of the two texts alone;
/// the contract gives it its name and says nothing else of it.
#[verifier::external_body]
fn capture(pattern: &str, text: &str) -> (r: Option<String>)
    ensures
        r is Some <==> first_capture(pattern@, text@) is Some,
        r matches Some(found) ==> first_capture(pattern@, text@) == Some(found@),
{
    match regex::Regex::new(pattern) {
        Ok(re) => re.captures(text).and_then(|caps| caps.get(1)).map(
            |found| String::from(found.as_str()),
        ),
        Err(_) => None,
    }
}

/// The regular expression that finds the score: the digits and full stops
/// behind the words `VMAF score: `.
pub open spec fn score_pattern() -> Seq<char> {
    ".*VMAF score: ([0-9.]+).*"@
}

/// Finds the score in the text that the tool printed: what the first
/// group of the score's regular expression takes, as text; `None` where
/// the expression matches nowhere.
pub fn score_text(printed: &str) -> (r: Option<String>)
    ensures
        r is Some <==> first_capture(score_pattern(), printed@) is Some,
        r matches Some(found) ==> first_capture(score_pattern(), printed@) == Some(found@),
{
    capture(".*VMAF score: ([0-9.]+).*", printed)
}

} // verus!
