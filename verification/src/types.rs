//! Severity levels, violations, and the set of changed files.
use crate::ordered::has_text;
use crate::split::head_spec;
use crate::text::{chars, find_char, part, string, strs, trim, trim_spec};
use std::str::FromStr;
use vstd::prelude::*;

verus! {

/// The characters of an optional string.
pub open spec fn opt(s: Option<String>) -> Option<Seq<char>> {
    match s {
        Some(s) => Some(s@),
        None => None,
    }
}

/// Why a rule could not fix a file.
#[derive(Clone, Debug)]
pub struct FixError {
    pub message: String,
}

/// What a rule's fix gives: the new text if there is anything to change, or why there is none.
pub open spec fn fix_outcome(r: Result<Option<String>, FixError>) -> Result<
    Option<Seq<char>>,
    Seq<char>,
> {
    match r {
        Ok(text) => Ok(opt(text)),
        Err(e) => Err(e.message@),
    }
}

/// A copy of an optional string.
pub fn copy_opt(s: &Option<String>) -> (r: Option<String>)
    ensures
        opt(r) == opt(*s),
{
    match s {
        Some(s) => Some(s.clone()),
        None => None,
    }
}

// ---------------------------------------------------------------------------
// Level
// ---------------------------------------------------------------------------

/// How severe a violation is; a warning is less than an error.
#[derive(Clone, Copy, PartialEq, Eq, Structural, PartialOrd, Ord, Debug, Hash)]
pub enum Level {
    Warning,
    Error,
}

/// A text in lower case.
pub uninterp spec fn lowercase(s: Seq<char>) -> Seq<char>;

/// Whether every character of a text is an ASCII character other than an upper case letter.
pub open spec fn is_lower_ascii(s: Seq<char>) -> bool {
    forall|i: int| 0 <= i < s.len() ==> (#[trigger] s[i] as u32) < 0x80 && !('A' <= s[i] <= 'Z')
}

/// `str::to_lowercase` gives the text in lower case as Unicode defines it. What has no upper case
/// letter and is ASCII stays as it is; of other texts nothing more is said than that the result
/// is a function of the text.
#[verifier::external_body]
pub(crate) fn to_lower(s: &str) -> (r: String)
    ensures
        r@ == lowercase(s@),
        is_lower_ascii(s@) ==> r@ == s@,
{
    s.to_lowercase()
}

impl Level {
    /// The name of the level.
    pub open spec fn label(self) -> Seq<char> {
        match self {
            Level::Warning => "warning"@,
            Level::Error => "error"@,
        }
    }

    /// The level that a lower case name stands for.
    pub open spec fn named(name: Seq<char>) -> Option<Level> {
        if name == "warning"@ {
            Some(Level::Warning)
        } else if name == "error"@ {
            Some(Level::Error)
        } else {
            None
        }
    }

    /// Whether the level is at least as severe as `other`.
    pub open spec fn reaches(self, other: Level) -> bool {
        self == Level::Error || other == Level::Warning
    }

    /// Whether the level is at least as severe as `other`.
    pub fn at_least(self, other: Level) -> (r: bool)
        ensures
            r == self.reaches(other),
    {
        self == Level::Error || other == Level::Warning
    }

    /// The name of the level.
    pub fn to_string(&self) -> (r: String)
        ensures
            r@ == self.label(),
    {
        match self {
            Level::Warning => "warning".to_owned(),
            Level::Error => "error".to_owned(),
        }
    }

    /// Reads a level name in any case.
    pub fn parse(s: &str) -> (r: Result<Level, String>)
        ensures
            match r {
                Ok(level) => Level::named(lowercase(s@)) == Some(level),
                Err(message) => {
                    &&& Level::named(lowercase(s@)) is None
                    &&& message@ == "Unknown level: "@ + lowercase(s@)
                },
            },
            is_lower_ascii(s@) ==> lowercase(s@) == s@,
    {
        let lower = to_lower(s);
        if lower == "warning".to_owned() {
            Ok(Level::Warning)
        } else if lower == "error".to_owned() {
            Ok(Level::Error)
        } else {
            let mut message = "Unknown level: ".to_owned();
            message.append(lower.as_str());
            Err(message)
        }
    }
}

impl FromStr for Level {
    type Err = String;

    fn from_str(s: &str) -> (r: Result<Self, String>)
        ensures
            match r {
                Ok(level) => Level::named(lowercase(s@)) == Some(level),
                Err(message) => {
                    &&& Level::named(lowercase(s@)) is None
                    &&& message@ == "Unknown level: "@ + lowercase(s@)
                },
            },
    {
        Level::parse(s)
    }
}

/// Reading back a level's own name gives that level.
pub proof fn law_level_round_trip(level: Level)
    ensures
        Level::named(level.label()) == Some(level),
        is_lower_ascii(level.label()),
{
    reveal_strlit("warning");
    reveal_strlit("error");
    assert("warning"@[0] == 'w');
    assert("error"@[0] == 'e');
}

// ---------------------------------------------------------------------------
// Violation
// ---------------------------------------------------------------------------

/// One finding of a rule in a file.
#[derive(Clone, Debug)]
pub struct Violation {
    /// Rule code, such as `KIS001`.
    pub rule: String,
    /// 1-based line of the finding.
    pub line: usize,
    /// 0-based byte column at which the finding starts.
    pub col: usize,
    /// 1-based last line of the finding.
    pub end_line: usize,
    /// 0-based byte column just past the finding, 0 where it is unknown.
    pub end_col: usize,
    /// Short description.
    pub message: String,
    /// Longer explanation or hint.
    pub help: Option<String>,
    pub level: Level,
    /// Whether the finding can be fixed automatically.
    pub fixable: bool,
}

/// What a [`Violation`] says.
#[verifier::ext_equal]
pub struct ViolationView {
    pub rule: Seq<char>,
    pub line: int,
    pub col: int,
    pub end_line: int,
    pub end_col: int,
    pub message: Seq<char>,
    pub help: Option<Seq<char>>,
    pub level: Level,
    pub fixable: bool,
}

impl View for Violation {
    type V = ViolationView;

    open spec fn view(&self) -> ViolationView {
        ViolationView {
            rule: self.rule@,
            line: self.line as int,
            col: self.col as int,
            end_line: self.end_line as int,
            end_col: self.end_col as int,
            message: self.message@,
            help: opt(self.help),
            level: self.level,
            fixable: self.fixable,
        }
    }
}

/// What several violations say.
pub open spec fn violation_views(v: Seq<Violation>) -> Seq<ViolationView> {
    v.map_values(|x: Violation| x@)
}

/// The wire form of a violation, as the cache and the output formats hold it. A field is absent
/// where the record has no such entry or one of another type.
#[derive(Clone, Debug)]
pub struct Record {
    pub rule: Option<String>,
    pub line: Option<u64>,
    pub message: Option<String>,
    pub level: Option<String>,
    pub help: Option<String>,
    pub start_line: Option<u64>,
    /// 1-based.
    pub start_character: Option<u64>,
    pub end_line: Option<u64>,
    pub end_character: Option<u64>,
    pub fixable: Option<bool>,
}

/// What a [`Record`] says.
#[verifier::ext_equal]
pub struct RecordView {
    pub rule: Option<Seq<char>>,
    pub line: Option<u64>,
    pub message: Option<Seq<char>>,
    pub level: Option<Seq<char>>,
    pub help: Option<Seq<char>>,
    pub start_line: Option<u64>,
    pub start_character: Option<u64>,
    pub end_line: Option<u64>,
    pub end_character: Option<u64>,
    pub fixable: Option<bool>,
}

impl View for Record {
    type V = RecordView;

    open spec fn view(&self) -> RecordView {
        RecordView {
            rule: opt(self.rule),
            line: self.line,
            message: opt(self.message),
            level: opt(self.level),
            help: opt(self.help),
            start_line: self.start_line,
            start_character: self.start_character,
            end_line: self.end_line,
            end_character: self.end_character,
            fixable: self.fixable,
        }
    }
}

/// What several records say.
pub open spec fn record_views(v: Seq<Record>) -> Seq<RecordView> {
    v.map_values(|x: Record| x@)
}

/// The wire form of a violation; its start column counts from 1.
pub open spec fn record_of(v: ViolationView) -> RecordView {
    RecordView {
        rule: Some(v.rule),
        line: Some(v.line as u64),
        message: Some(v.message),
        level: Some(v.level.label()),
        help: v.help,
        start_line: Some(v.line as u64),
        start_character: Some((v.col + 1) as u64),
        end_line: Some(v.end_line as u64),
        end_character: Some(v.end_col as u64),
        fixable: Some(v.fixable),
    }
}

/// The number in an optional field, or `default`.
pub open spec fn or_number(n: Option<u64>, default: u64) -> u64 {
    match n {
        Some(n) => n,
        None => default,
    }
}

/// The text in an optional field, or `default`.
pub open spec fn or_text(s: Option<Seq<char>>, default: Seq<char>) -> Seq<char> {
    match s {
        Some(s) => s,
        None => default,
    }
}

/// The number in an optional field, or `default`.
pub fn number_or(n: Option<u64>, default: u64) -> (r: u64)
    ensures
        r == or_number(n, default),
{
    match n {
        Some(n) => n,
        None => default,
    }
}

/// The text in an optional field, or `default`.
pub fn text_or(s: &Option<String>, default: &str) -> (r: String)
    ensures
        r@ == or_text(opt(*s), default@),
{
    match s {
        Some(s) => s.clone(),
        None => default.to_owned(),
    }
}

/// The level in a record: an error where it is absent or unknown.
pub open spec fn record_level(level: Option<Seq<char>>) -> Level {
    match level {
        Some(name) => match Level::named(lowercase(name)) {
            Some(level) => level,
            None => Level::Error,
        },
        None => Level::Error,
    }
}

/// The violation that a record with line `line` stands for. Its rule is what stands before the
/// first colon of the message.
pub open spec fn violation_of(r: RecordView, line: u64) -> ViolationView {
    ViolationView {
        rule: match r.message {
            Some(message) => trim_spec(head_spec(message, ':')),
            None => "UNKNOWN"@,
        },
        line: (line as usize) as int,
        col: (if or_number(r.start_character, 1) == 0 {
            0u64
        } else {
            (or_number(r.start_character, 1) - 1) as u64
        } as usize) as int,
        end_line: (or_number(r.end_line, 1) as usize) as int,
        end_col: (or_number(r.end_character, 0) as usize) as int,
        message: or_text(r.message, Seq::empty()),
        help: r.help,
        level: record_level(r.level),
        fixable: r.fixable == Some(true),
    }
}

impl Violation {
    /// The wire form of the violation.
    pub fn to_json(&self) -> (r: Record)
        requires
            self.col < usize::MAX,
        ensures
            r@ == record_of(self@),
    {
        Record {
            rule: Some(self.rule.clone()),
            line: Some(self.line as u64),
            message: Some(self.message.clone()),
            level: Some(self.level.to_string()),
            help: copy_opt(&self.help),
            start_line: Some(self.line as u64),
            start_character: Some((self.col + 1) as u64),
            end_line: Some(self.end_line as u64),
            end_character: Some(self.end_col as u64),
            fixable: Some(self.fixable),
        }
    }

    /// The violation that a record stands for; none where the record has no line.
    pub fn from_json(r: &Record) -> (v: Option<Violation>)
        ensures
            match v {
                Some(v) => r.line is Some && v@ == violation_of(r@, r.line->0),
                None => r.line is None,
            },
    {
        let line: u64 = match r.line {
            Some(line) => line,
            None => return None,
        };
        let rule = match &r.message {
            Some(message) => {
                let text = chars(message.as_str());
                let k: usize = find_char(text.as_slice(), ':');
                assert(text@.subrange(0, k as int) =~= head_spec(message@, ':'));
                string(trim(part(text.as_slice(), 0, k)))
            },
            None => "UNKNOWN".to_owned(),
        };
        let start: u64 = number_or(r.start_character, 1);
        let level = match &r.level {
            Some(name) => match Level::parse(name.as_str()) {
                Ok(level) => level,
                Err(_) => Level::Error,
            },
            None => Level::Error,
        };
        Some(
            Violation {
                rule,
                line: line as usize,
                col: (if start == 0 {
                    0u64
                } else {
                    start - 1
                }) as usize,
                end_line: number_or(r.end_line, 1) as usize,
                end_col: number_or(r.end_character, 0) as usize,
                message: match &r.message {
                    Some(message) => message.clone(),
                    None => String::new(),
                },
                help: copy_opt(&r.help),
                level,
                fixable: match r.fixable {
                    Some(fixable) => fixable,
                    None => false,
                },
            },
        )
    }
}

/// A violation read back from its wire form keeps its place, message, help, level and whether it
/// can be fixed; its rule is kept where the message begins with the rule and a colon.
pub proof fn law_record_round_trip(v: ViolationView)
    requires
        0 <= v.line <= usize::MAX,
        0 <= v.col < usize::MAX,
        0 <= v.end_line <= usize::MAX,
        0 <= v.end_col <= usize::MAX,
        lowercase(v.level.label()) == v.level.label(),
    ensures
        ({
            let back = violation_of(record_of(v), v.line as u64);
            &&& back.line == v.line && back.col == v.col
            &&& back.end_line == v.end_line && back.end_col == v.end_col
            &&& back.message == v.message && back.help == v.help
            &&& back.level == v.level && back.fixable == v.fixable
            &&& trim_spec(head_spec(v.message, ':')) == v.rule ==> back == v
        }),
{
    law_level_round_trip(v.level);
}

// ---------------------------------------------------------------------------
// FixTarget
// ---------------------------------------------------------------------------

/// The violation that alone is to be fixed.
#[derive(Clone, Debug)]
pub struct FixTarget {
    pub rule: String,
    /// 1-based.
    pub line: usize,
    /// 0-based.
    pub col: usize,
}

/// What a [`FixTarget`] says.
#[verifier::ext_equal]
pub struct TargetView {
    pub rule: Seq<char>,
    pub line: int,
    pub col: int,
}

impl View for FixTarget {
    type V = TargetView;

    open spec fn view(&self) -> TargetView {
        TargetView { rule: self.rule@, line: self.line as int, col: self.col as int }
    }
}

/// What an optional target says.
pub open spec fn target_of(t: Option<FixTarget>) -> Option<TargetView> {
    match t {
        Some(t) => Some(t@),
        None => None,
    }
}

/// Whether a violation of `rule` at a place is to be fixed: any is where there is no target.
pub open spec fn aimed_at(
    target: Option<TargetView>,
    rule: Seq<char>,
    line: int,
    col: int,
) -> bool {
    match target {
        Some(t) => t.rule == rule && t.line == line && t.col == col,
        None => true,
    }
}

/// Whether a violation of `rule` at a place is to be fixed.
pub fn is_aimed_at(target: &Option<FixTarget>, rule: &str, line: usize, col: usize) -> (r: bool)
    ensures
        r == aimed_at(target_of(*target), rule@, line as int, col as int),
{
    match target {
        Some(t) => crate::text::eq(t.rule.as_str(), rule) && t.line == line && t.col == col,
        None => true,
    }
}

/// A copy of an optional target.
pub fn copy_target(target: &Option<FixTarget>) -> (r: Option<FixTarget>)
    ensures
        target_of(r) == target_of(*target),
{
    match target {
        Some(t) => Some(FixTarget { rule: t.rule.clone(), line: t.line, col: t.col }),
        None => None,
    }
}

// ---------------------------------------------------------------------------
// ChangedFiles
// ---------------------------------------------------------------------------

/// The files that count as changed.
#[derive(Clone, Debug)]
pub struct ChangedFiles {
    pub files: Vec<String>,
}

impl ChangedFiles {
    /// Whether `path` is among the changed files.
    pub fn contains(&self, path: &str) -> (r: bool)
        ensures
            r == strs(self.files@).contains(path@),
    {
        has_text(&self.files, path)
    }
}

/// Errors reach every level, warnings only that of a warning.
pub proof fn law_errors_reach_every_level(level: Level)
    ensures
        Level::Error.reaches(level),
        Level::Warning.reaches(Level::Warning),
        !Level::Warning.reaches(Level::Error),
{
}

/// A name other than those of the levels stands for none.
pub proof fn law_other_names_are_no_levels(name: Seq<char>)
    requires
        name != "warning"@,
        name != "error"@,
    ensures
        Level::named(name) is None,
{
}

/// The wire form of a violation says all of it; its column counts from 1.
pub proof fn law_records_say_all(v: ViolationView)
    requires
        0 <= v.line <= usize::MAX,
        0 <= v.col < usize::MAX,
        0 <= v.end_line <= usize::MAX,
        0 <= v.end_col <= usize::MAX,
    ensures
        ({
            let r = record_of(v);
            &&& r.rule == Some(v.rule)
            &&& r.message == Some(v.message)
            &&& r.help == v.help
            &&& r.fixable == Some(v.fixable)
            &&& r.level == Some(
                if v.level == Level::Error {
                    "error"@
                } else {
                    "warning"@
                },
            )
            &&& r.line is Some && r.line->0 == v.line
            &&& r.start_line == r.line
            &&& r.start_character is Some && r.start_character->0 == v.col + 1
            &&& r.end_line is Some && r.end_line->0 == v.end_line
            &&& r.end_character is Some && r.end_character->0 == v.end_col
        }),
{
}

/// With a target only the violation at its place is fixed; without one, every violation is.
pub proof fn law_targets_are_met_exactly(t: TargetView, rule: Seq<char>, line: int, col: int)
    ensures
        aimed_at(None, rule, line, col),
        aimed_at(Some(t), t.rule, t.line, t.col),
        aimed_at(Some(t), rule, line, col) ==> rule == t.rule && line == t.line && col == t.col,
{
}

} // verus!
