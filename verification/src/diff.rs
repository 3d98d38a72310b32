//! Differences between two texts.
use similar::{DiffTag, TextDiff};
use vstd::prelude::*;
use vstd::string::*;

verus! {

/// The differences between two texts as a unified diff, with a header that names both.
pub uninterp spec fn unified(
    old_text: Seq<char>,
    new_text: Seq<char>,
    old_name: Seq<char>,
    new_name: Seq<char>,
) -> Seq<char>;

/// Calls `similar::TextDiff::from_lines` and writes its `unified_diff` with a header. The result
/// is a function of the texts and the names; it is empty where the texts are the same.
#[verifier::external_body]
fn unified_diff(old_text: &str, new_text: &str, old_name: &str, new_name: &str) -> (r: String)
    ensures
        r@ == unified(old_text@, new_text@, old_name@, new_name@),
        old_text@ == new_text@ ==> r@.len() == 0,
{
    TextDiff::from_lines(old_text, new_text).unified_diff().header(old_name, new_name).to_string()
}

/// What `--diff` prints for a file.
pub fn print_unified_diff(path: &str, original: &str, modified: &str) -> (r: String)
    ensures
        r@ == unified(original@, modified@, path@, path@),
        original@ == modified@ ==> r@.len() == 0,
{
    unified_diff(original, modified, path, path)
}

/// The name of the old text: a text that is empty was not there.
pub open spec fn old_name_of(path: Seq<char>, old_text: Seq<char>) -> Seq<char> {
    if old_text.len() == 0 {
        "/dev/null"@
    } else {
        path
    }
}

/// What `init --diff` prints for a file.
pub fn print_file_diff(path: &str, before: &str, after: &str) -> (r: String)
    ensures
        r@ == unified(before@, after@, old_name_of(path@, before@), path@),
        before@ == after@ ==> r@.len() == 0,
{
    if before.is_empty() {
        unified_diff(before, after, "/dev/null", path)
    } else {
        unified_diff(before, after, path, path)
    }
}

// ---------------------------------------------------------------------------
// Parts
// ---------------------------------------------------------------------------

/// One part of the way from an old text to a new one: a range of lines of each.
#[derive(Clone, Copy, Debug, PartialEq, Eq, Structural)]
pub struct DiffPart {
    /// Whether the lines are the same.
    pub equal: bool,
    pub old_start: usize,
    pub old_end: usize,
    pub new_start: usize,
    pub new_end: usize,
}

/// The parts of the way from an old text to a new one.
pub uninterp spec fn line_parts(old_text: Seq<char>, new_text: Seq<char>) -> Seq<DiffPart>;

/// Calls `similar::TextDiff::from_lines` and gives the `ops` of the difference. They are a function
/// of the two texts. That the parts together make up both texts is not claimed.
#[verifier::external_body]
pub(crate) fn diff_parts(old_text: &str, new_text: &str) -> (r: Vec<DiffPart>)
    ensures
        r@ == line_parts(old_text@, new_text@),
{
    TextDiff::from_lines(old_text, new_text).ops().iter().map(|op| DiffPart {
        equal: op.tag() == DiffTag::Equal,
        old_start: op.old_range().start,
        old_end: op.old_range().end,
        new_start: op.new_range().start,
        new_end: op.new_range().end,
    }).collect()
}

/// A file that was not there before is compared with nothing, every other with itself.
pub proof fn law_new_files_are_compared_with_nothing(path: Seq<char>, old_text: Seq<char>)
    ensures
        old_name_of(path, Seq::empty()) == "/dev/null"@,
        old_text.len() > 0 ==> old_name_of(path, old_text) == path,
{
}

} // verus!
