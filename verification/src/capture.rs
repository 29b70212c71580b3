//! Capture groups of a regular expression's first match.
use vstd::prelude::*;
use vstd::string::*;

verus! {

/// `regex::Error`, of which only this is read: that there is one.
#[verifier::external_type_specification]
#[verifier::external_body]
pub struct ExRegexError(regex::Error);

/// Why no capture group was returned.
#[derive(Debug)]
pub enum CaptureError {
    /// The pattern is no regular expression; `pattern` is the text that was
    /// given as one.
    Compile { pattern: String },
    /// The pattern matches nowhere in the text.
    NoMatch,
}

impl CaptureError {
    /// The error in words: for `Compile`, a sentence that ends with the
    /// pattern.
    pub fn message(&self) -> (text: String)
        ensures
            text@ == match self {
                CaptureError::Compile { pattern } => "Failed to create regex object for "@
                    + pattern@,
                CaptureError::NoMatch => "Can't get capture groups"@,
            },
    {
        match self {
            CaptureError::Compile { pattern } => {
                let mut text = "Failed to create regex object for ".to_owned();
                text.append(pattern.as_str());
                text
            },
            CaptureError::NoMatch => "Can't get capture groups".to_owned(),
        }
    }
}

/// Whether `regex::Regex::new` accepts `pattern`.
pub uninterp spec fn pattern_compiles(pattern: Seq<char>) -> bool;

/// What `regex::Regex::captures` finds for the regular expression `pattern`
/// in `text`: `None` where nothing matches; else, for the leftmost match, the
/// text of each group in the order of the opening parentheses, group 0 being
/// the whole match, with `None` for a group that took no part.
pub uninterp spec fn captured_groups(pattern: Seq<char>, text: Seq<char>) -> Option<
    Seq<Option<Seq<char>>>,
>;

/// The texts of the groups in `groups`.
pub open spec fn group_texts(groups: Seq<Option<String>>) -> Seq<Option<Seq<char>>> {
    Seq::new(
        groups.len(),
        |i: int|
            match groups[i] {
                Some(s) => Some(s@),
                None => None,
            },
    )
}

/// The text of group `n`; `None` where there is no such group or it took no
/// part.
pub open spec fn group_at(groups: Seq<Option<Seq<char>>>, n: int) -> Option<Seq<char>> {
    if 0 <= n < groups.len() {
        groups[n]
    } else {
        None
    }
}

/// `regex::Regex::new` on `pattern`, to have the regular expression that
/// `regex::Regex::captures` is then called on with `text`; each group of the
/// match is copied out as a string, in the order of `regex::Captures::iter`.
///
/// Believed, not proved: the call fails exactly where the pattern does not
/// compile; what it finds is `captured_groups`; and a match has a group 0,
/// which took part.
#[verifier::external_body]
pub(crate) fn find_groups(pattern: &str, text: &str) -> (found: Result<
    Option<Vec<Option<String>>>,
    regex::Error,
>)
    ensures
        found is Ok <==> pattern_compiles(pattern@),
        found matches Ok(Some(groups)) ==> captured_groups(pattern@, text@) == Some(
            group_texts(groups@),
        ) && groups@.len() >= 1 && groups@[0] is Some,
        found matches Ok(None) ==> captured_groups(pattern@, text@) is None,
{
    let re = regex::Regex::new(pattern)?;
    Ok(
        re.captures(text).map(
            |caps| caps.iter().map(|m| m.map(|m| m.as_str().to_string())).collect(),
        ),
    )
}

/// Whether a match, if there is one, has a group `n` that took part.
pub open spec fn has_group(found: Option<Seq<Option<Seq<char>>>>, n: int) -> bool {
    found matches Some(groups) ==> group_at(groups, n) is Some
}

/// What is returned for group `n` once the pattern has compiled and `found`
/// is what it captured.
pub open spec fn group_outcome(
    found: Option<Seq<Option<Seq<char>>>>,
    n: int,
    r: Result<String, CaptureError>,
) -> bool {
    match found {
        None => r matches Err(CaptureError::NoMatch),
        Some(groups) => r matches Ok(s) && group_at(groups, n) == Some(s@),
    }
}

/// Group `n` of the groups that a search has found: the text of the group,
/// or `NoMatch` where the search found nothing.
pub fn pick_group(found: &Option<Vec<Option<String>>>, n: usize) -> (r: Result<
    String,
    CaptureError,
>)
    requires
        found matches Some(groups) ==> group_at(group_texts(groups@), n as int) is Some,
    ensures
        match found {
            None => r matches Err(CaptureError::NoMatch),
            Some(groups) => r matches Ok(s) && group_at(group_texts(groups@), n as int) == Some(
                s@,
            ),
        },
{
    match found {
        None => Err(CaptureError::NoMatch),
        Some(groups) => Ok(groups[n].as_ref().unwrap().clone()),
    }
}

/// The text of capture group `n` of the leftmost match of the regular
/// expression `pattern` in `text`; group 0 is the whole match.
///
/// Fails with `Compile`, which carries the pattern, exactly where the pattern
/// does not compile, and with `NoMatch` exactly where it compiles and matches
/// nowhere. The caller sees to it that a match has a group `n` that took
/// part.
pub fn capture_group(text: &str, pattern: &str, n: usize) -> (r: Result<String, CaptureError>)
    requires
        pattern_compiles(pattern@) ==> has_group(captured_groups(pattern@, text@), n as int),
    ensures
        !pattern_compiles(pattern@) ==> (r matches Err(CaptureError::Compile { pattern: p })
            && p@ == pattern@),
        pattern_compiles(pattern@) ==> group_outcome(
            captured_groups(pattern@, text@),
            n as int,
            r,
        ),
{
    match find_groups(pattern, text) {
        Err(_) => Err(CaptureError::Compile { pattern: pattern.to_owned() }),
        Ok(found) => pick_group(&found, n),
    }
}

/// As `capture_group`, for any `n`: `Ok(None)` where the pattern matches and
/// the match has no group `n` that took part.
pub fn find_capture_group(text: &str, pattern: &str, n: usize) -> (r: Result<
    Option<String>,
    CaptureError,
>)
    ensures
        !pattern_compiles(pattern@) ==> (r matches Err(CaptureError::Compile { pattern: p })
            && p@ == pattern@),
        pattern_compiles(pattern@) ==> match captured_groups(pattern@, text@) {
            None => r matches Err(CaptureError::NoMatch),
            Some(groups) => match group_at(groups, n as int) {
                None => r matches Ok(None),
                Some(t) => r matches Ok(Some(s)) && s@ == t,
            },
        },
        n == 0 ==> !(r matches Ok(None)),
{
    match find_groups(pattern, text) {
        Err(_) => Err(CaptureError::Compile { pattern: pattern.to_owned() }),
        Ok(None) => Err(CaptureError::NoMatch),
        Ok(Some(groups)) => {
            if n < groups.len() && groups[n].is_some() {
                match capture_group(text, pattern, n) {
                    Ok(s) => Ok(Some(s)),
                    Err(e) => Err(e),
                }
            } else {
                Ok(None)
            }
        },
    }
}

} // verus!
