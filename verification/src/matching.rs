//! Regular expressions and file globs.
use crate::edit::char_index;
use crate::text::strs;
use regex::Regex;
use vstd::prelude::*;

verus! {

/// `regex::Regex`: a compiled regular expression.
#[verifier::external_type_specification]
#[verifier::external_body]
pub struct ExRegex(Regex);

/// The pattern that a regular expression was compiled from: what `Regex::as_str` gives back.
pub uninterp spec fn regex_source(re: Regex) -> Seq<char>;

/// Why a pattern does not compile; `None` where it does.
pub uninterp spec fn regex_error(pattern: Seq<char>) -> Option<Seq<char>>;

/// The byte offsets of the first match of a pattern in a text.
pub uninterp spec fn regex_find(pattern: Seq<char>, text: Seq<char>) -> Option<(int, int)>;

/// The byte offsets of all matches of a pattern in a text that do not overlap, in order.
pub uninterp spec fn regex_find_all(pattern: Seq<char>, text: Seq<char>) -> Seq<(int, int)>;

/// A text with all matches of a pattern replaced, capture groups expanded.
pub uninterp spec fn regex_replaced(
    pattern: Seq<char>,
    text: Seq<char>,
    replacement: Seq<char>,
) -> Seq<char>;

/// Whether the offsets bound a run of whole characters of `text`.
pub open spec fn is_span(text: Seq<char>, span: (int, int)) -> bool {
    0 <= span.0 <= span.1 && char_index(text, span.0) is Some && char_index(text, span.1) is Some
}

/// What a list of spans says.
pub open spec fn spans_of(v: Seq<(usize, usize)>) -> Seq<(int, int)> {
    v.map_values(|m: (usize, usize)| (m.0 as int, m.1 as int))
}

/// Calls `regex::Regex::new`, which compiles a pattern or says why it cannot; the message is that
/// of the error's `Display`. Whether it compiles is a function of the pattern.
#[verifier::external_body]
pub(crate) fn compile_regex(pattern: &str) -> (r: Result<Regex, String>)
    ensures
        match r {
            Ok(re) => regex_error(pattern@) is None && regex_source(re) == pattern@,
            Err(message) => regex_error(pattern@) == Some(message@),
        },
{
    Regex::new(pattern).map_err(|e| e.to_string())
}

/// Calls `regex::Regex::is_match`, which is true if and only if there is a match anywhere in the
/// text: where `Regex::find` finds one.
#[verifier::external_body]
pub(crate) fn regex_is_match(re: &Regex, text: &str) -> (r: bool)
    ensures
        r == (regex_find(regex_source(*re), text@) is Some),
{
    re.is_match(text)
}

/// Calls `regex::Regex::find` and gives the byte offsets of the first match, a function of the
/// pattern and the text. The offsets are in order and fall on character boundaries of the text.
#[verifier::external_body]
pub(crate) fn regex_first(re: &Regex, text: &str) -> (r: Option<(usize, usize)>)
    ensures
        match r {
            Some(m) => {
                &&& regex_find(regex_source(*re), text@) == Some((m.0 as int, m.1 as int))
                &&& is_span(text@, (m.0 as int, m.1 as int))
            },
            None => regex_find(regex_source(*re), text@) is None,
        },
{
    re.find(text).map(|m| (m.start(), m.end()))
}

/// Calls `regex::Regex::find_iter` and gives the byte offsets of every match in turn, a function
/// of the pattern and the text. The offsets of each are in order and fall on character boundaries
/// of the text, and no match starts before the end of the one before it.
#[verifier::external_body]
pub(crate) fn regex_all(re: &Regex, text: &str) -> (r: Vec<(usize, usize)>)
    ensures
        spans_of(r@) == regex_find_all(regex_source(*re), text@),
        forall|i: int| 0 <= i < r@.len() ==> is_span(text@, #[trigger] spans_of(r@)[i]),
        forall|i: int, j: int|
            0 <= i < j < r@.len() ==> (#[trigger] spans_of(r@)[i]).1 <= (#[trigger] spans_of(
                r@,
            )[j]).0,
{
    re.find_iter(text).map(|m| (m.start(), m.end())).collect()
}

/// Calls `regex::Regex::replace_all`, whose result is a function of the pattern, the text and the
/// replacement.
#[verifier::external_body]
pub(crate) fn regex_replace(re: &Regex, text: &str, replacement: &str) -> (r: String)
    ensures
        r@ == regex_replaced(regex_source(*re), text@, replacement@),
{
    re.replace_all(text, replacement).into_owned()
}

/// What takes the place of the first match of a pattern at or behind a byte offset, capture groups
/// expanded.
pub uninterp spec fn regex_expanded(
    pattern: Seq<char>,
    text: Seq<char>,
    start: int,
    replacement: Seq<char>,
) -> Option<Seq<char>>;

/// Calls `regex::Regex::captures_at` and expands the replacement with `Captures::expand`. The
/// result is a function of the pattern, the text, the offset and the replacement.
#[verifier::external_body]
pub(crate) fn regex_expand(re: &Regex, text: &str, start: usize, replacement: &str) -> (r: Option<
    String,
>)
    requires
        char_index(text@, start as int) is Some,
    ensures
        match r {
            Some(s) => regex_expanded(regex_source(*re), text@, start as int, replacement@) == Some(
                s@,
            ),
            None => regex_expanded(regex_source(*re), text@, start as int, replacement@) is None,
        },
{
    let captures = re.captures_at(text, start)?;
    let mut out = String::new();
    captures.expand(replacement, &mut out);
    Some(out)
}

/// Why a glob is not valid; `None` where it is.
pub uninterp spec fn glob_error(pattern: Seq<char>) -> Option<Seq<char>>;

/// Whether a path matches a glob; `None` where the glob cannot be built.
pub uninterp spec fn glob_match(pattern: Seq<char>, path: Seq<char>) -> Option<bool>;

/// Calls `globset::Glob::new`, which reads a glob or says why it cannot; the message is that of
/// the error's `Display`.
#[verifier::external_body]
pub(crate) fn check_glob(pattern: &str) -> (r: Option<String>)
    ensures
        match r {
            Some(message) => glob_error(pattern@) == Some(message@),
            None => glob_error(pattern@) is None,
        },
{
    globset::Glob::new(pattern).err().map(|e| e.to_string())
}

/// The valid ones of several globs.
pub open spec fn valid_globs(globs: Seq<Seq<char>>) -> Seq<Seq<char>>
    decreases globs.len(),
{
    if globs.len() == 0 {
        Seq::empty()
    } else {
        let before = valid_globs(globs.drop_last());
        if glob_error(globs.last()) is None {
            before.push(globs.last())
        } else {
            before
        }
    }
}

/// Valid globs are valid.
pub proof fn lemma_valid_globs(globs: Seq<Seq<char>>)
    ensures
        forall|i: int|
            0 <= i < valid_globs(globs).len() ==> glob_error(#[trigger] valid_globs(globs)[i]) is None,
    decreases globs.len(),
{
    if globs.len() > 0 {
        lemma_valid_globs(globs.drop_last());
    }
}

/// Why valid globs cannot be made into one set; `None` where they can.
pub uninterp spec fn glob_set_error(globs: Seq<Seq<char>>) -> Option<Seq<char>>;

/// Calls `globset::GlobSetBuilder::build` on valid globs, which makes a set of them or says why it
/// cannot; the message is that of the error's `Display`. It is a function of the globs.
#[verifier::external_body]
pub(crate) fn check_glob_set(globs: &Vec<String>) -> (r: Option<String>)
    requires
        forall|i: int|
            0 <= i < globs@.len() ==> glob_error(#[trigger] strs(globs@)[i]) is None,
    ensures
        match r {
            Some(message) => glob_set_error(strs(globs@)) == Some(message@),
            None => glob_set_error(strs(globs@)) is None,
        },
{
    let mut builder = globset::GlobSetBuilder::new();
    for glob in globs {
        builder.add(globset::Glob::new(glob).ok()?);
    }
    builder.build().err().map(|e| e.to_string())
}

/// Calls `globset::GlobSet::is_match` on a set built from one glob. The result is a function of
/// the glob and the path. A set of several globs matches where one of them does.
#[verifier::external_body]
pub(crate) fn match_glob(pattern: &str, path: &str) -> (r: Option<bool>)
    ensures
        r == glob_match(pattern@, path@),
{
    let glob = globset::Glob::new(pattern).ok()?;
    let set = globset::GlobSetBuilder::new().add(glob).build().ok()?;
    Some(set.is_match(path))
}

/// Whether a path matches one of several globs.
pub open spec fn any_glob(patterns: Seq<Seq<char>>, path: Seq<char>) -> bool {
    exists|i: int|
        0 <= i < patterns.len() && glob_match(#[trigger] patterns[i], path) == Some(true)
}

/// Whether a path matches one of several globs.
pub fn matches_any(patterns: &Vec<String>, path: &str) -> (r: bool)
    ensures
        r == any_glob(strs(patterns@), path@),
{
    let mut i: usize = 0;
    while i < patterns.len()
        invariant
            i <= patterns@.len(),
            forall|j: int|
                0 <= j < i ==> glob_match(#[trigger] strs(patterns@)[j], path@) != Some(
                    true,
                ),
        decreases patterns@.len() - i,
    {
        assert(strs(patterns@)[i as int] == patterns@[i as int]@);
        match match_glob(patterns[i].as_str(), path) {
            Some(true) => {
                return true;
            },
            _ => {},
        }
        i += 1;
    }
    assert(strs(patterns@).len() == patterns@.len());
    false
}

/// The valid ones of several globs.
pub fn keep_valid_globs(globs: &Vec<String>) -> (r: Vec<String>)
    ensures
        strs(r@) == valid_globs(strs(globs@)),
{
    let ghost all = strs(globs@);
    let mut out: Vec<String> = Vec::new();
    let mut i: usize = 0;
    assert(strs(out@) =~= Seq::empty());
    assert(all.take(0) =~= Seq::empty());
    while i < globs.len()
        invariant
            i <= globs@.len(),
            all == strs(globs@),
            strs(out@) == valid_globs(all.take(i as int)),
        decreases globs@.len() - i,
    {
        assert(all.take(i + 1).drop_last() =~= all.take(i as int));
        assert(all.take(i + 1).last() == globs@[i as int]@);
        match check_glob(globs[i].as_str()) {
            None => {
                let ghost prior = out@;
                out.push(globs[i].clone());
                assert(strs(out@) =~= strs(prior).push(
                    globs@[i as int]@,
                ));
            },
            Some(_) => {},
        }
        i += 1;
    }
    assert(all.take(all.len() as int) =~= all);
    out
}

} // verus!
