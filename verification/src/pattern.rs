//! The file pattern of a profile: its written form and the compiled matcher.
//!
//! A pattern is written either bare, as a regular expression, or delimited,
//! as `/expression/flags`. Of the flags only `i` has a meaning: it makes the
//! match case-insensitive. Every other flag character is ignored.

use vstd::prelude::*;
use vstd::string::StrSliceExecFns;
use vstd::string::StringExecFns;
use regex::Regex;
use crate::error::SplitError;

verus! {

#[verifier::external_type_specification]
#[verifier::external_body]
pub struct ExRegex(Regex);

#[verifier::external_type_specification]
#[verifier::external_body]
pub struct ExRegexError(regex::Error);

/// What the regex engine makes of an expression: the compiled matcher, or
/// its complaint.
pub uninterp spec fn compiled(source: Seq<char>) -> Result<Regex, regex::Error>;

/// Whether a compiled matcher finds a match anywhere in `haystack`.
pub uninterp spec fn finds_match(re: Regex, haystack: Seq<char>) -> bool;

/// The regex engine's account of a complaint, as text.
pub uninterp spec fn error_text(e: regex::Error) -> Seq<char>;

/// `Regex::new`: compiles `source`. Trusted: the outcome is a function of
/// the expression's text alone.
#[verifier::external_body]
fn regex_new(source: &str) -> (outcome: Result<Regex, regex::Error>)
    ensures
        outcome == compiled(source@),
{
    Regex::new(source)
}

/// `Regex::is_match`: whether the matcher finds a match anywhere in
/// `haystack`. Trusted: the answer is a function of the matcher and the
/// haystack's text alone.
#[verifier::external_body]
fn regex_is_match(re: &Regex, haystack: &str) -> (found: bool)
    ensures
        found == finds_match(*re, haystack@),
{
    re.is_match(haystack)
}

/// `regex::Error`'s `Display`: the complaint as text. Trusted: the text is
/// a function of the error alone.
#[verifier::external_body]
fn regex_error_text(e: &regex::Error) -> (text: String)
    ensures
        text@ == error_text(*e),
{
    e.to_string()
}

/// `k` is where a delimited pattern closes: the first `/` after the opening one.
pub open spec fn is_closing_slash(raw: Seq<char>, k: int) -> bool {
    &&& 1 <= k < raw.len()
    &&& raw[k] == '/'
    &&& forall|j: int| 1 <= j < k ==> raw[j] != '/'
}

/// The pattern is written as `/expression/flags`.
pub open spec fn is_delimited(raw: Seq<char>) -> bool {
    raw.len() > 0 && raw[0] == '/' && exists|k: int| is_closing_slash(raw, k)
}

/// Where a delimited pattern closes.
pub open spec fn closing_slash(raw: Seq<char>) -> int {
    choose|k: int| is_closing_slash(raw, k)
}

/// The expression of a pattern: what stands between the slashes of a
/// delimited pattern, and all of a bare one.
pub open spec fn pattern_of(raw: Seq<char>) -> Seq<char> {
    if is_delimited(raw) {
        raw.subrange(1, closing_slash(raw))
    } else {
        raw
    }
}

/// The flags of a pattern: what follows the closing slash of a delimited
/// pattern; a bare one has none.
pub open spec fn flags_of(raw: Seq<char>) -> Seq<char> {
    if is_delimited(raw) {
        raw.subrange(closing_slash(raw) + 1, raw.len() as int)
    } else {
        Seq::empty()
    }
}

/// The expression that is handed to the regex engine: the pattern's own,
/// behind `(?i)` where the flags hold an `i`.
pub open spec fn source_of(raw: Seq<char>) -> Seq<char> {
    if flags_of(raw).contains('i') {
        seq!['(', '?', 'i', ')'] + pattern_of(raw)
    } else {
        pattern_of(raw)
    }
}

/// A pattern closes in one place only.
pub proof fn lemma_closing_slash(raw: Seq<char>, k: int)
    requires
        raw.len() > 0,
        raw[0] == '/',
        is_closing_slash(raw, k),
    ensures
        is_delimited(raw),
        closing_slash(raw) == k,
{
    let c = closing_slash(raw);
    assert(is_closing_slash(raw, c));
    if c < k {
        assert(raw[c] != '/');
    } else if k < c {
        assert(raw[k] != '/');
    }
}

/// Splits a written pattern into its expression and its flags.
pub fn parse_regex_format(regex_str: &str) -> (parts: (&str, &str))
    ensures
        parts.0@ == pattern_of(regex_str@),
        parts.1@ == flags_of(regex_str@),
{
    let n: usize = regex_str.unicode_len();
    if n > 0 && regex_str.get_char(0) == '/' {
        let mut k: usize = 1;
        while k < n
            invariant
                1 <= k <= n,
                n == regex_str@.len(),
                regex_str@[0] == '/',
                forall|j: int| 1 <= j < k ==> regex_str@[j] != '/',
            decreases n - k,
        {
            if regex_str.get_char(k) == '/' {
                proof {
                    lemma_closing_slash(regex_str@, k as int);
                }
                return (regex_str.substring_char(1, k), regex_str.substring_char(k + 1, n));
            }
            k += 1;
        }
        assert(!is_delimited(regex_str@)) by {
            if is_delimited(regex_str@) {
                let c = closing_slash(regex_str@);
                assert(regex_str@[c] == '/');
            }
        }
    }
    proof {
        reveal_strlit("");
    }
    (regex_str, "")
}

/// Whether `c` occurs in `text`.
fn has_char(text: &str, c: char) -> (found: bool)
    ensures
        found == text@.contains(c),
{
    let n: usize = text.unicode_len();
    let mut i: usize = 0;
    while i < n
        invariant
            i <= n,
            n == text@.len(),
            forall|j: int| 0 <= j < i ==> text@[j] != c,
        decreases n - i,
    {
        if text.get_char(i) == c {
            return true;
        }
        i += 1;
    }
    false
}

/// The expression that stands for a written pattern in the regex engine.
pub fn regex_source(regex_str: &str) -> (source: String)
    ensures
        source@ == source_of(regex_str@),
{
    let (pattern, flags) = parse_regex_format(regex_str);
    if has_char(flags, 'i') {
        let mut source: String = "(?i)".to_owned();
        proof {
            reveal_strlit("(?i)");
            assert("(?i)"@ =~= seq!['(', '?', 'i', ')']);
        }
        source.append(pattern);
        source
    } else {
        pattern.to_owned()
    }
}

/// A pattern that is ready to test paths.
#[derive(Debug)]
pub struct CompiledPattern {
    pub regex: Regex,
}

impl CompiledPattern {
    /// Whether the pattern matches anywhere in `path`, taken as a whole: the
    /// directories in it count as much as the file's name.
    pub fn is_match(&self, path: &str) -> (found: bool)
        ensures
            found == finds_match(self.regex, path@),
    {
        regex_is_match(&self.regex, path)
    }
}

/// Compiles a written pattern. It fails where the expression is none that
/// the regex engine accepts.
pub fn compile(regex_str: &str) -> (outcome: Result<CompiledPattern, SplitError>)
    ensures
        match compiled(source_of(regex_str@)) {
            Ok(re) => outcome matches Ok(p) && p.regex == re,
            Err(e) => outcome matches Err(SplitError::InvalidPattern { pattern, cause })
                && pattern@ == regex_str@ && cause@ == error_text(e),
        },
{
    let source = regex_source(regex_str);
    match regex_new(source.as_str()) {
        Ok(regex) => Ok(CompiledPattern { regex }),
        Err(e) => Err(
            SplitError::InvalidPattern {
                pattern: regex_str.to_owned(),
                cause: regex_error_text(&e),
            },
        ),
    }
}

} // verus!
