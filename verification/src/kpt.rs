//! KPT: violations of patterns that the project defines by regular expressions.
//!
//! A pattern is looked for in each line of a file, or in the whole text. Sub-rules refine the
//! message of a finding; the first that matches decides. A pattern with a replacement can fix
//! what it finds.
use crate::edit::{char_index, find_index};
use crate::kis001::{level_or, read_level};
use crate::line_index::line_starts_of;
use crate::matching::{
    any_glob, check_glob, check_glob_set, compile_regex, glob_error, glob_set_error, is_span,
    lemma_valid_globs, matches_any, regex_all, regex_error,
    regex_find, regex_find_all, regex_first, regex_is_match, regex_source, spans_of, valid_globs,
};
use crate::noqa::{has_noqa, pairs, suppressed};
use crate::paths::{
    extension, extension_of, file_name, file_name_of, join_path, joined, relative_to, strip_prefix,
};
use crate::split::{lines_spec, str_lines};
use crate::text::{byte_len, chars, lemma_byte_len_monotone, part, string, strs, width};
use crate::types::{copy_opt, opt, violation_views, Level, Violation, ViolationView};
use regex::Regex;
use vstd::prelude::*;
use vstd::string::*;

verus! {

// ---------------------------------------------------------------------------
// Patterns as they are written
// ---------------------------------------------------------------------------

/// A refinement of a pattern as it is written.
#[derive(Clone, Debug)]
pub struct RawSubRule {
    /// A match of any of these makes the refinement apply.
    pub pattern: Vec<String>,
    pub message: String,
    pub help: Option<String>,
}

/// A pattern as it is written.
#[derive(Clone, Debug)]
pub struct RawPattern {
    pub id: String,
    pub message: String,
    /// A match of any of these is a finding.
    pub pattern: Vec<String>,
    /// Globs of the files to look at; none means all.
    pub files: Vec<String>,
    pub level: Option<String>,
    pub help: Option<String>,
    pub sub_rules: Vec<RawSubRule>,
    /// Whether to look at the whole text, where `.` goes over line ends.
    pub multiline: Option<bool>,
    /// What takes the place of a match.
    pub replacement: Option<String>,
}

// ---------------------------------------------------------------------------
// Compiled patterns
// ---------------------------------------------------------------------------

/// The patterns that regular expressions were compiled from.
pub open spec fn sources(v: Seq<Regex>) -> Seq<Seq<char>> {
    v.map_values(|re: Regex| regex_source(re))
}

/// A refinement with its regular expressions compiled.
pub struct CompiledSubRule {
    pub patterns: Vec<Regex>,
    pub message: String,
    pub help: Option<String>,
}

/// What a refinement says.
#[verifier::ext_equal]
pub struct SubRuleView {
    pub patterns: Seq<Seq<char>>,
    pub message: Seq<char>,
    pub help: Option<Seq<char>>,
}

impl View for CompiledSubRule {
    type V = SubRuleView;

    open spec fn view(&self) -> SubRuleView {
        SubRuleView {
            patterns: sources(self.patterns@),
            message: self.message@,
            help: opt(self.help),
        }
    }
}

/// What several refinements say.
pub open spec fn sub_rule_views(v: Seq<CompiledSubRule>) -> Seq<SubRuleView> {
    v.map_values(|s: CompiledSubRule| s@)
}

/// A pattern with its regular expressions compiled.
pub struct CompiledPattern {
    pub id: String,
    pub message: String,
    pub help: Option<String>,
    pub regexes: Vec<Regex>,
    /// Valid globs of the files to look at; `None` means all files.
    pub files: Option<Vec<String>>,
    pub level: Level,
    pub sub_rules: Vec<CompiledSubRule>,
    pub multiline: bool,
    pub replacement: Option<String>,
}

/// What a pattern says.
#[verifier::ext_equal]
pub struct PatternView {
    pub id: Seq<char>,
    pub message: Seq<char>,
    pub help: Option<Seq<char>>,
    pub regexes: Seq<Seq<char>>,
    pub files: Option<Seq<Seq<char>>>,
    pub level: Level,
    pub sub_rules: Seq<SubRuleView>,
    pub multiline: bool,
    pub replacement: Option<Seq<char>>,
}

/// The strings of an optional list.
pub open spec fn opt_strs(v: Option<Vec<String>>) -> Option<Seq<Seq<char>>> {
    match v {
        Some(v) => Some(strs(v@)),
        None => None,
    }
}

impl View for CompiledPattern {
    type V = PatternView;

    open spec fn view(&self) -> PatternView {
        PatternView {
            id: self.id@,
            message: self.message@,
            help: opt(self.help),
            regexes: sources(self.regexes@),
            files: opt_strs(self.files),
            level: self.level,
            sub_rules: sub_rule_views(self.sub_rules@),
            multiline: self.multiline,
            replacement: opt(self.replacement),
        }
    }
}

/// What several patterns say.
pub open spec fn pattern_views(v: Seq<CompiledPattern>) -> Seq<PatternView> {
    v.map_values(|p: CompiledPattern| p@)
}

// ---------------------------------------------------------------------------
// Compiling
// ---------------------------------------------------------------------------

/// The text that is compiled: over line ends where the pattern looks at the whole text.
pub open spec fn dotted(pattern: Seq<char>, multiline: bool) -> Seq<char> {
    if multiline {
        "(?s)"@ + pattern
    } else {
        pattern
    }
}

/// Those of several patterns that compile, as they are compiled.
pub open spec fn compiling(patterns: Seq<Seq<char>>, multiline: bool) -> Seq<Seq<char>>
    decreases patterns.len(),
{
    if patterns.len() == 0 {
        Seq::empty()
    } else {
        let before = compiling(patterns.drop_last(), multiline);
        let p = dotted(patterns.last(), multiline);
        if regex_error(p) is None {
            before.push(p)
        } else {
            before
        }
    }
}

/// What is said of those of several patterns that do not compile.
pub open spec fn regex_notes(
    id: Seq<char>,
    patterns: Seq<Seq<char>>,
    multiline: bool,
) -> Seq<Seq<char>>
    decreases patterns.len(),
{
    if patterns.len() == 0 {
        Seq::empty()
    } else {
        let before = regex_notes(id, patterns.drop_last(), multiline);
        match regex_error(dotted(patterns.last(), multiline)) {
            Some(e) => before.push(
                "konform: skipping pattern '"@ + id + "' — invalid regex '"@ + patterns.last()
                    + "': "@ + e,
            ),
            None => before,
        }
    }
}

/// What is said of the globs that are not valid.
pub open spec fn glob_notes(id: Seq<char>, globs: Seq<Seq<char>>) -> Seq<Seq<char>>
    decreases globs.len(),
{
    if globs.len() == 0 {
        Seq::empty()
    } else {
        let before = glob_notes(id, globs.drop_last());
        match glob_error(globs.last()) {
            Some(e) => before.push(
                "konform: skipping glob '"@ + globs.last() + "' in pattern '"@ + id + "': "@ + e,
            ),
            None => before,
        }
    }
}

/// What is said where valid globs cannot be made into one set.
pub open spec fn set_notes(id: Seq<char>, globs: Seq<Seq<char>>) -> Seq<Seq<char>> {
    match glob_set_error(globs) {
        Some(e) => seq!["konform: failed to build glob set for '"@ + id + "': "@ + e],
        None => Seq::empty(),
    }
}

/// The globs that limit a pattern; `None` where it applies to all files: it names none, or they
/// cannot be made into one set.
pub open spec fn glob_set(globs: Seq<Seq<char>>) -> Option<Seq<Seq<char>>> {
    if globs.len() == 0 || glob_set_error(valid_globs(globs)) is Some {
        None
    } else {
        Some(valid_globs(globs))
    }
}

/// What is said of the globs of a pattern.
pub open spec fn all_glob_notes(id: Seq<char>, globs: Seq<Seq<char>>) -> Seq<Seq<char>> {
    if globs.len() == 0 {
        Seq::empty()
    } else {
        glob_notes(id, globs) + set_notes(id, valid_globs(globs))
    }
}

/// What is said of the patterns of a refinement that do not compile.
pub open spec fn sub_notes(id: Seq<char>, patterns: Seq<Seq<char>>) -> Seq<Seq<char>>
    decreases patterns.len(),
{
    if patterns.len() == 0 {
        Seq::empty()
    } else {
        let before = sub_notes(id, patterns.drop_last());
        match regex_error(patterns.last()) {
            Some(e) => before.push(
                "konform: skipping sub-rule pattern in '"@ + id + "' — invalid regex '"@
                    + patterns.last() + "': "@ + e,
            ),
            None => before,
        }
    }
}

/// The refinements of which at least one pattern compiles.
pub open spec fn compiled_subs(subs: Seq<RawSubRule>) -> Seq<SubRuleView>
    decreases subs.len(),
{
    if subs.len() == 0 {
        Seq::empty()
    } else {
        let before = compiled_subs(subs.drop_last());
        let s = subs.last();
        let patterns = compiling(strs(s.pattern@), false);
        if patterns.len() == 0 {
            before
        } else {
            before.push(SubRuleView { patterns, message: s.message@, help: opt(s.help) })
        }
    }
}

/// What is said of the patterns of several refinements.
pub open spec fn all_sub_notes(id: Seq<char>, subs: Seq<RawSubRule>) -> Seq<Seq<char>>
    decreases subs.len(),
{
    if subs.len() == 0 {
        Seq::empty()
    } else {
        all_sub_notes(id, subs.drop_last()) + sub_notes(id, strs(subs.last().pattern@))
    }
}

/// Whether a pattern looks at the whole text.
pub open spec fn is_multiline(raw: RawPattern) -> bool {
    raw.multiline == Some(true)
}

/// A pattern as it is compiled; `None` where none of its regular expressions is valid.
pub open spec fn compiled(raw: RawPattern, default_level: Level) -> Option<PatternView> {
    let regexes = compiling(strs(raw.pattern@), is_multiline(raw));
    if regexes.len() == 0 {
        None
    } else {
        Some(
            PatternView {
                id: raw.id@,
                message: raw.message@,
                help: opt(raw.help),
                regexes,
                files: glob_set(strs(raw.files@)),
                level: level_or(opt(raw.level), default_level),
                sub_rules: compiled_subs(raw.sub_rules@),
                multiline: is_multiline(raw),
                replacement: opt(raw.replacement),
            },
        )
    }
}

/// What is said when a pattern is compiled.
pub open spec fn compile_notes(raw: RawPattern) -> Seq<Seq<char>> {
    let first = regex_notes(raw.id@, strs(raw.pattern@), is_multiline(raw));
    if compiling(strs(raw.pattern@), is_multiline(raw)).len() == 0 {
        first
    } else {
        first + all_glob_notes(raw.id@, strs(raw.files@)) + all_sub_notes(raw.id@, raw.sub_rules@)
    }
}

/// The patterns that can be compiled.
pub open spec fn all_compiled(raws: Seq<RawPattern>, default_level: Level) -> Seq<PatternView>
    decreases raws.len(),
{
    if raws.len() == 0 {
        Seq::empty()
    } else {
        let before = all_compiled(raws.drop_last(), default_level);
        match compiled(raws.last(), default_level) {
            Some(p) => before.push(p),
            None => before,
        }
    }
}

/// What is said when several patterns are compiled.
pub open spec fn all_notes(raws: Seq<RawPattern>) -> Seq<Seq<char>>
    decreases raws.len(),
{
    if raws.len() == 0 {
        Seq::empty()
    } else {
        all_notes(raws.drop_last()) + compile_notes(raws.last())
    }
}

/// Compiles several regular expressions; says of each that does not compile why.
fn compile_all(
    id: &str,
    patterns: &Vec<String>,
    multiline: bool,
    notes: &mut Vec<String>,
) -> (r: Vec<Regex>)
    ensures
        sources(r@) == compiling(strs(patterns@), multiline),
        strs(final(notes)@) == strs(old(notes)@) + regex_notes(id@, strs(patterns@), multiline),
{
    let ghost all = strs(patterns@);
    let ghost before_notes = strs(notes@);
    let mut out: Vec<Regex> = Vec::new();
    let mut i: usize = 0;
    assert(sources(out@) =~= Seq::empty());
    assert(all.take(0) =~= Seq::empty());
    assert(before_notes + Seq::<Seq<char>>::empty() =~= before_notes);
    while i < patterns.len()
        invariant
            i <= patterns@.len(),
            all == strs(patterns@),
            before_notes == strs(old(notes)@),
            sources(out@) == compiling(all.take(i as int), multiline),
            strs(notes@) == before_notes + regex_notes(id@, all.take(i as int), multiline),
        decreases patterns@.len() - i,
    {
        assert(all.take(i + 1).drop_last() =~= all.take(i as int));
        assert(all.take(i + 1).last() == patterns@[i as int]@);
        let text = if multiline {
            let mut text = "(?s)".to_owned();
            text.append(patterns[i].as_str());
            text
        } else {
            patterns[i].clone()
        };
        match compile_regex(text.as_str()) {
            Ok(re) => {
                let ghost prior = out@;
                out.push(re);
                assert(sources(out@) =~= sources(prior).push(text@));
            },
            Err(e) => {
                let mut note = "konform: skipping pattern '".to_owned();
                note.append(id);
                note.append("' — invalid regex '");
                note.append(patterns[i].as_str());
                note.append("': ");
                note.append(e.as_str());
                push_note(notes, note);
            },
        }
        assert(strs(notes@) =~= before_notes + regex_notes(id@, all.take(i + 1), multiline));
        i += 1;
    }
    assert(all.take(all.len() as int) =~= all);
    out
}

/// Adds a line to what is said.
fn push_note(notes: &mut Vec<String>, note: String)
    ensures
        strs(final(notes)@) == strs(old(notes)@).push(note@),
{
    let ghost before = notes@;
    notes.push(note);
    assert(strs(notes@) =~= strs(before).push(note@));
}

/// The valid ones of several globs; says of each other why it is not valid.
fn keep_globs(id: &str, globs: &Vec<String>, notes: &mut Vec<String>) -> (r: Vec<String>)
    ensures
        strs(r@) == valid_globs(strs(globs@)),
        strs(final(notes)@) == strs(old(notes)@) + glob_notes(id@, strs(globs@)),
{
    let ghost all = strs(globs@);
    let ghost before_notes = strs(notes@);
    let mut out: Vec<String> = Vec::new();
    let mut i: usize = 0;
    assert(strs(out@) =~= Seq::empty());
    assert(all.take(0) =~= Seq::empty());
    assert(before_notes + Seq::<Seq<char>>::empty() =~= before_notes);
    while i < globs.len()
        invariant
            i <= globs@.len(),
            all == strs(globs@),
            before_notes == strs(old(notes)@),
            strs(out@) == valid_globs(all.take(i as int)),
            strs(notes@) == before_notes + glob_notes(id@, all.take(i as int)),
        decreases globs@.len() - i,
    {
        assert(all.take(i + 1).drop_last() =~= all.take(i as int));
        assert(all.take(i + 1).last() == globs@[i as int]@);
        match check_glob(globs[i].as_str()) {
            None => {
                let ghost prior = out@;
                out.push(globs[i].clone());
                assert(strs(out@) =~= strs(prior).push(globs@[i as int]@));
            },
            Some(e) => {
                let mut note = "konform: skipping glob '".to_owned();
                note.append(globs[i].as_str());
                note.append("' in pattern '");
                note.append(id);
                note.append("': ");
                note.append(e.as_str());
                push_note(notes, note);
            },
        }
        assert(strs(notes@) =~= before_notes + glob_notes(id@, all.take(i + 1)));
        i += 1;
    }
    assert(all.take(all.len() as int) =~= all);
    out
}

/// The globs that limit a pattern; says what is wrong with them.
fn build_glob_set(id: &str, globs: &Vec<String>, notes: &mut Vec<String>) -> (r: Option<Vec<String>>)
    ensures
        opt_strs(r) == glob_set(strs(globs@)),
        strs(final(notes)@) == strs(old(notes)@) + all_glob_notes(id@, strs(globs@)),
{
    let ghost before_notes = strs(notes@);
    assert(strs(globs@).len() == globs@.len());
    if globs.len() == 0 {
        assert(before_notes + Seq::<Seq<char>>::empty() =~= before_notes);
        return None;
    }
    let valid = keep_globs(id, globs, notes);
    proof {
        lemma_valid_globs(strs(globs@));
    }
    let ghost said = strs(notes@);
    match check_glob_set(&valid) {
        Some(e) => {
            let mut note = "konform: failed to build glob set for '".to_owned();
            note.append(id);
            note.append("': ");
            note.append(e.as_str());
            push_note(notes, note);
            assert(said.push(note@) =~= before_notes + all_glob_notes(id@, strs(globs@)));
            None
        },
        None => {
            assert(said =~= before_notes + all_glob_notes(id@, strs(globs@)));
            Some(valid)
        },
    }
}

/// Compiles the patterns of a refinement; says of each that does not compile why.
fn compile_sub(id: &str, patterns: &Vec<String>, notes: &mut Vec<String>) -> (r: Vec<Regex>)
    ensures
        sources(r@) == compiling(strs(patterns@), false),
        strs(final(notes)@) == strs(old(notes)@) + sub_notes(id@, strs(patterns@)),
{
    let ghost all = strs(patterns@);
    let ghost before_notes = strs(notes@);
    let mut out: Vec<Regex> = Vec::new();
    let mut i: usize = 0;
    assert(sources(out@) =~= Seq::empty());
    assert(all.take(0) =~= Seq::empty());
    assert(before_notes + Seq::<Seq<char>>::empty() =~= before_notes);
    while i < patterns.len()
        invariant
            i <= patterns@.len(),
            all == strs(patterns@),
            before_notes == strs(old(notes)@),
            sources(out@) == compiling(all.take(i as int), false),
            strs(notes@) == before_notes + sub_notes(id@, all.take(i as int)),
        decreases patterns@.len() - i,
    {
        assert(all.take(i + 1).drop_last() =~= all.take(i as int));
        assert(all.take(i + 1).last() == patterns@[i as int]@);
        match compile_regex(patterns[i].as_str()) {
            Ok(re) => {
                let ghost prior = out@;
                out.push(re);
                assert(sources(out@) =~= sources(prior).push(patterns@[i as int]@));
            },
            Err(e) => {
                let mut note = "konform: skipping sub-rule pattern in '".to_owned();
                note.append(id);
                note.append("' — invalid regex '");
                note.append(patterns[i].as_str());
                note.append("': ");
                note.append(e.as_str());
                push_note(notes, note);
            },
        }
        assert(strs(notes@) =~= before_notes + sub_notes(id@, all.take(i + 1)));
        i += 1;
    }
    assert(all.take(all.len() as int) =~= all);
    out
}

/// Compiles the refinements of a pattern.
fn compile_subs(id: &str, subs: &Vec<RawSubRule>, notes: &mut Vec<String>) -> (r: Vec<
    CompiledSubRule,
>)
    ensures
        sub_rule_views(r@) == compiled_subs(subs@),
        strs(final(notes)@) == strs(old(notes)@) + all_sub_notes(id@, subs@),
{
    let ghost before_notes = strs(notes@);
    let mut out: Vec<CompiledSubRule> = Vec::new();
    let mut i: usize = 0;
    assert(sub_rule_views(out@) =~= Seq::empty());
    assert(subs@.take(0) =~= Seq::empty());
    assert(before_notes + Seq::<Seq<char>>::empty() =~= before_notes);
    while i < subs.len()
        invariant
            i <= subs@.len(),
            before_notes == strs(old(notes)@),
            sub_rule_views(out@) == compiled_subs(subs@.take(i as int)),
            strs(notes@) == before_notes + all_sub_notes(id@, subs@.take(i as int)),
        decreases subs@.len() - i,
    {
        assert(subs@.take(i + 1).drop_last() =~= subs@.take(i as int));
        assert(subs@.take(i + 1).last() == subs@[i as int]);
        let patterns = compile_sub(id, &subs[i].pattern, notes);
        assert(strs(notes@) =~= before_notes + all_sub_notes(id@, subs@.take(i + 1)));
        assert(sources(patterns@).len() == patterns@.len());
        if patterns.len() > 0 {
            let ghost prior = out@;
            let sub = CompiledSubRule {
                patterns,
                message: subs[i].message.clone(),
                help: copy_opt(&subs[i].help),
            };
            out.push(sub);
            assert(sub_rule_views(out@) =~= sub_rule_views(prior).push(sub@));
        }
        i += 1;
    }
    assert(subs@.take(subs@.len() as int) =~= subs@);
    out
}

/// Compiles one pattern.
fn compile_one(raw: &RawPattern, default_level: Level, notes: &mut Vec<String>) -> (r: Option<
    CompiledPattern,
>)
    ensures
        match r {
            Some(p) => compiled(*raw, default_level) == Some(p@),
            None => compiled(*raw, default_level) is None,
        },
        strs(final(notes)@) == strs(old(notes)@) + compile_notes(*raw),
{
    let ghost before_notes = strs(notes@);
    let multiline = match raw.multiline {
        Some(multiline) => multiline,
        None => false,
    };
    let regexes = compile_all(raw.id.as_str(), &raw.pattern, multiline, notes);
    assert(sources(regexes@).len() == regexes@.len());
    if regexes.len() == 0 {
        return None;
    }
    let files = build_glob_set(raw.id.as_str(), &raw.files, notes);
    let sub_rules = compile_subs(raw.id.as_str(), &raw.sub_rules, notes);
    assert(strs(notes@) =~= before_notes + compile_notes(*raw));
    Some(
        CompiledPattern {
            id: raw.id.clone(),
            message: raw.message.clone(),
            help: copy_opt(&raw.help),
            regexes,
            files,
            level: read_level(&raw.level, default_level),
            sub_rules,
            multiline,
            replacement: copy_opt(&raw.replacement),
        },
    )
}

/// Compiles patterns. Regular expressions and globs that are not valid are left out and noted,
/// and with them refinements and patterns that have none left.
pub fn compile_patterns(
    raws: &Vec<RawPattern>,
    default_level: Level,
    notes: &mut Vec<String>,
) -> (r: Vec<CompiledPattern>)
    ensures
        pattern_views(r@) == all_compiled(raws@, default_level),
        strs(final(notes)@) == strs(old(notes)@) + all_notes(raws@),
{
    let ghost before_notes = strs(notes@);
    let mut out: Vec<CompiledPattern> = Vec::new();
    let mut i: usize = 0;
    assert(pattern_views(out@) =~= Seq::empty());
    assert(raws@.take(0) =~= Seq::empty());
    assert(before_notes + Seq::<Seq<char>>::empty() =~= before_notes);
    while i < raws.len()
        invariant
            i <= raws@.len(),
            before_notes == strs(old(notes)@),
            pattern_views(out@) == all_compiled(raws@.take(i as int), default_level),
            strs(notes@) == before_notes + all_notes(raws@.take(i as int)),
        decreases raws@.len() - i,
    {
        assert(raws@.take(i + 1).drop_last() =~= raws@.take(i as int));
        assert(raws@.take(i + 1).last() == raws@[i as int]);
        let ghost prior = out@;
        match compile_one(&raws[i], default_level, notes) {
            Some(p) => {
                out.push(p);
                assert(pattern_views(out@) =~= pattern_views(prior).push(p@));
            },
            None => {},
        }
        assert(strs(notes@) =~= before_notes + all_notes(raws@.take(i + 1)));
        i += 1;
    }
    assert(raws@.take(raws@.len() as int) =~= raws@);
    out
}

// ---------------------------------------------------------------------------
// Which files
// ---------------------------------------------------------------------------

/// Whether one of `globs` matches a path: as it is given, as seen from the configuration's
/// directory or the working directory, or by its file name alone.
pub open spec fn path_matches(
    globs: Seq<Seq<char>>,
    path: Seq<char>,
    config_dir: Option<Seq<char>>,
    cwd: Option<Seq<char>>,
) -> bool {
    ||| any_glob(globs, path)
    ||| seen_from_matches(globs, path, config_dir)
    ||| seen_from_matches(globs, path, cwd)
    ||| match file_name_of(path) {
        Some(name) => any_glob(globs, name),
        None => false,
    }
}

/// Whether one of `globs` matches a path as seen from `dir`.
pub open spec fn seen_from_matches(
    globs: Seq<Seq<char>>,
    path: Seq<char>,
    dir: Option<Seq<char>>,
) -> bool {
    match dir {
        Some(dir) => match relative_to(path, dir) {
            Some(rel) => any_glob(globs, rel),
            None => false,
        },
        None => false,
    }
}

/// Whether one of `globs` matches a path as seen from `dir`.
fn matches_seen_from(globs: &Vec<String>, path: &str, dir: &Option<String>) -> (r: bool)
    ensures
        r == seen_from_matches(strs(globs@), path@, opt(*dir)),
{
    match dir {
        Some(dir) => match strip_prefix(path, dir.as_str()) {
            Some(rel) => matches_any(globs, rel.as_str()),
            None => false,
        },
        None => false,
    }
}

/// Whether one of `globs` matches a path.
pub fn matches_path(
    globs: &Vec<String>,
    path: &str,
    config_dir: &Option<String>,
    cwd: &Option<String>,
) -> (r: bool)
    ensures
        r == path_matches(strs(globs@), path@, opt(*config_dir), opt(*cwd)),
{
    if matches_any(globs, path) || matches_seen_from(globs, path, config_dir)
        || matches_seen_from(globs, path, cwd) {
        return true;
    }
    match file_name(path) {
        Some(name) => matches_any(globs, name.as_str()),
        None => false,
    }
}

/// A file to look at.
#[verifier::ext_equal]
pub struct FileInput {
    pub path: Seq<char>,
    pub source: Seq<char>,
    pub ignore_noqa: bool,
    pub aliases: Seq<(Seq<char>, Seq<char>)>,
    pub config_dir: Option<Seq<char>>,
    pub cwd: Option<Seq<char>>,
}

impl PatternView {
    /// Whether the pattern is looked for in a file.
    pub open spec fn applies(self, f: FileInput) -> bool {
        match self.files {
            Some(globs) => path_matches(globs, f.path, f.config_dir, f.cwd),
            None => true,
        }
    }
}

impl CompiledPattern {
    /// Whether the pattern is looked for in a file.
    pub fn matches_file(
        &self,
        path: &str,
        config_dir: &Option<String>,
        cwd: &Option<String>,
    ) -> (r: bool)
        ensures
            r == match self@.files {
                Some(globs) => path_matches(globs, path@, opt(*config_dir), opt(*cwd)),
                None => true,
            },
    {
        match &self.files {
            Some(globs) => matches_path(globs, path, config_dir, cwd),
            None => true,
        }
    }
}

// ---------------------------------------------------------------------------
// What is reported
// ---------------------------------------------------------------------------

/// Whether one of several regular expressions matches a text.
pub open spec fn any_match(patterns: Seq<Seq<char>>, text: Seq<char>) -> bool {
    exists|i: int|
        0 <= i < patterns.len() && regex_find(#[trigger] patterns[i], text) is Some
}

/// The first refinement that matches a text.
pub open spec fn first_sub(subs: Seq<SubRuleView>, text: Seq<char>) -> Option<SubRuleView>
    decreases subs.len(),
{
    if subs.len() == 0 {
        None
    } else if any_match(subs[0].patterns, text) {
        Some(subs[0])
    } else {
        first_sub(subs.skip(1), text)
    }
}

impl PatternView {
    /// The message and help for a finding: those of the first refinement that matches `text`,
    /// or else the pattern's own.
    pub open spec fn wording(self, text: Seq<char>) -> (Seq<char>, Option<Seq<char>>) {
        match first_sub(self.sub_rules, text) {
            Some(sub) => (sub.message, sub.help),
            None => (self.message, self.help),
        }
    }

    /// What is said of a finding whose wording goes by `text`.
    pub open spec fn violation(
        self,
        text: Seq<char>,
        line: int,
        col: int,
        end_line: int,
        end_col: int,
    ) -> ViolationView {
        ViolationView {
            rule: self.id,
            line,
            col,
            end_line,
            end_col,
            message: self.id + ": "@ + self.wording(text).0,
            help: self.wording(text).1,
            level: self.level,
            fixable: self.replacement is Some,
        }
    }
}

/// Of the first matches of several regular expressions in a text the widest, and of those the
/// last.
pub open spec fn widest(patterns: Seq<Seq<char>>, text: Seq<char>) -> Option<(int, int)>
    decreases patterns.len(),
{
    if patterns.len() == 0 {
        None
    } else {
        let before = widest(patterns.drop_last(), text);
        match regex_find(patterns.last(), text) {
            Some(m) => match before {
                Some(b) => if m.1 - m.0 >= b.1 - b.0 {
                    Some(m)
                } else {
                    before
                },
                None => Some(m),
            },
            None => before,
        }
    }
}

impl FileInput {
    /// Whether a `# noqa` on a line suppresses `code`.
    pub open spec fn silences(self, line: Seq<char>, code: Seq<char>) -> bool {
        !self.ignore_noqa && suppressed(line, code, self.aliases)
    }

    /// Whether a `# noqa` on the 0-based line `i` suppresses `code`.
    pub open spec fn quiet(self, i: int, code: Seq<char>) -> bool {
        0 <= i < lines_spec(self.source).len() && self.silences(lines_spec(self.source)[i], code)
    }

    /// What a pattern finds in the first `n` lines.
    pub open spec fn in_lines(self, p: PatternView, n: int) -> Seq<ViolationView>
        decreases n,
    {
        if n <= 0 {
            Seq::empty()
        } else {
            let before = self.in_lines(p, n - 1);
            let line = lines_spec(self.source)[n - 1];
            match widest(p.regexes, line) {
                Some(m) => if self.quiet(n - 1, p.id) {
                    before
                } else {
                    before.push(p.violation(line, n, m.0, n, m.1))
                },
                None => before,
            }
        }
    }

    /// The text before a byte offset.
    pub open spec fn prefix(self, offset: int) -> Seq<char> {
        self.source.take(char_index(self.source, offset)->0)
    }

    /// The 1-based line of a byte offset: one more than there are newlines before it.
    pub open spec fn line_at(self, offset: int) -> int {
        line_starts_of(self.prefix(offset)).len() as int
    }

    /// The byte column of a byte offset in its line.
    pub open spec fn col_at(self, offset: int) -> int {
        offset - line_starts_of(self.prefix(offset)).last()
    }

    /// What the first `n` matches of a regular expression in the whole text give.
    pub open spec fn in_matches(
        self,
        p: PatternView,
        matches: Seq<(int, int)>,
        n: int,
    ) -> Seq<ViolationView>
        decreases n,
    {
        if n <= 0 {
            Seq::empty()
        } else {
            let before = self.in_matches(p, matches, n - 1);
            let m = matches[n - 1];
            let line = self.line_at(m.0);
            if self.quiet(line - 1, p.id) {
                before
            } else {
                let matched = self.source.subrange(
                    char_index(self.source, m.0)->0,
                    char_index(self.source, m.1)->0,
                );
                before.push(
                    p.violation(
                        matched,
                        line,
                        self.col_at(m.0),
                        self.line_at(m.1),
                        self.col_at(m.1),
                    ),
                )
            }
        }
    }

    /// What the first `n` regular expressions of a pattern find in the whole text.
    pub open spec fn in_text(self, p: PatternView, n: int) -> Seq<ViolationView>
        decreases n,
    {
        if n <= 0 {
            Seq::empty()
        } else {
            let matches = regex_find_all(p.regexes[n - 1], self.source);
            self.in_text(p, n - 1) + self.in_matches(p, matches, matches.len() as int)
        }
    }

    /// What a pattern finds in the file.
    pub open spec fn findings(self, p: PatternView) -> Seq<ViolationView> {
        if !p.applies(self) {
            Seq::empty()
        } else if p.multiline {
            self.in_text(p, p.regexes.len() as int)
        } else {
            self.in_lines(p, lines_spec(self.source).len() as int)
        }
    }

    /// What several patterns find in the file.
    pub open spec fn all_findings(self, patterns: Seq<PatternView>) -> Seq<ViolationView>
        decreases patterns.len(),
    {
        if patterns.len() == 0 {
            Seq::empty()
        } else {
            self.all_findings(patterns.drop_last()) + self.findings(patterns.last())
        }
    }
}

// ---------------------------------------------------------------------------
// Checking
// ---------------------------------------------------------------------------

impl CompiledSubRule {
    /// Whether one of the refinement's patterns matches a text.
    pub fn matches(&self, line: &str) -> (r: bool)
        ensures
            r == any_match(self@.patterns, line@),
    {
        let mut i: usize = 0;
        while i < self.patterns.len()
            invariant
                i <= self.patterns@.len(),
                forall|j: int|
                    0 <= j < i ==> regex_find(#[trigger] sources(self.patterns@)[j], line@) is None,
            decreases self.patterns@.len() - i,
        {
            assert(sources(self.patterns@)[i as int] == regex_source(self.patterns@[i as int]));
            if regex_is_match(&self.patterns[i], line) {
                return true;
            }
            i += 1;
        }
        assert(sources(self.patterns@).len() == self.patterns@.len());
        false
    }
}

/// Of the first matches of several regular expressions in a text the widest, and of those the
/// last.
pub(crate) fn find_widest(regexes: &Vec<Regex>, text: &str) -> (r: Option<(usize, usize)>)
    ensures
        match r {
            Some(m) => widest(sources(regexes@), text@) == Some((m.0 as int, m.1 as int)),
            None => widest(sources(regexes@), text@) is None,
        },
{
    let ghost all = sources(regexes@);
    let mut best: Option<(usize, usize)> = None;
    let mut i: usize = 0;
    assert(all.take(0) =~= Seq::empty());
    while i < regexes.len()
        invariant
            i <= regexes@.len(),
            all == sources(regexes@),
            match best {
                Some(m) => widest(all.take(i as int), text@) == Some((m.0 as int, m.1 as int))
                    && m.0 <= m.1,
                None => widest(all.take(i as int), text@) is None,
            },
        decreases regexes@.len() - i,
    {
        assert(all.take(i + 1).drop_last() =~= all.take(i as int));
        assert(all.take(i + 1).last() == regex_source(regexes@[i as int]));
        match regex_first(&regexes[i], text) {
            Some(m) => {
                best = match best {
                    Some(b) => if m.1 - m.0 >= b.1 - b.0 {
                        Some(m)
                    } else {
                        Some(b)
                    },
                    None => Some(m),
                };
            },
            None => {},
        }
        i += 1;
    }
    assert(all.take(all.len() as int) =~= all);
    best
}

/// Whether the lines of a text can be counted from 1 whatever it holds.
pub open spec fn countable(text: Seq<char>) -> bool {
    text.len() < usize::MAX
}

/// The line and the byte column of a byte offset.
pub(crate) fn find_position(text: &[char], offset: usize) -> (r: (usize, usize))
    requires
        char_index(text@, offset as int) is Some,
        countable(text@),
    ensures
        ({
            let prefix = text@.take(char_index(text@, offset as int)->0);
            r.0 == line_starts_of(prefix).len() && r.1 == offset - line_starts_of(prefix).last()
        }),
        r.0 >= 1,
{
    let k: usize = match find_index(text, offset) {
        Some(k) => k,
        None => 0,
    };
    proof {
        crate::edit::lemma_char_index_is_prefix(text@, offset as int);
    }
    let mut line: usize = 1;
    let mut start: usize = 0;
    let mut at: usize = 0;
    let mut i: usize = 0;
    assert(text@.take(0) =~= Seq::empty());
    while i < k
        invariant
            i <= k <= text@.len(),
            countable(text@),
            byte_len(text@.take(k as int)) == offset,
            at == byte_len(text@.take(i as int)),
            line == line_starts_of(text@.take(i as int)).len(),
            start == line_starts_of(text@.take(i as int)).last(),
            1 <= line <= i + 1,
            start <= at,
        decreases k - i,
    {
        proof {
            lemma_byte_len_monotone(text@, i + 1, k as int);
            assert(text@.take(i + 1).drop_last() =~= text@.take(i as int));
            assert(text@.take(i + 1).last() == text@[i as int]);
        }
        at = at + width(text[i]);
        if text[i] == '\n' {
            line += 1;
            start = at;
        }
        i += 1;
    }
    (line, offset - start)
}

/// A file with what the findings in it depend on.
pub struct KptQuery<'a> {
    pub path: &'a str,
    pub source: &'a str,
    pub ignore_noqa: bool,
    pub noqa_aliases: &'a Vec<(String, String)>,
    pub config_dir: &'a Option<String>,
    pub cwd: &'a Option<String>,
}

impl<'a> KptQuery<'a> {
    /// What the query says.
    pub open spec fn input(&self) -> FileInput {
        FileInput {
            path: self.path@,
            source: self.source@,
            ignore_noqa: self.ignore_noqa,
            aliases: pairs(self.noqa_aliases@),
            config_dir: opt(*self.config_dir),
            cwd: opt(*self.cwd),
        }
    }
}

impl CompiledPattern {
    /// The first refinement that matches a text, by its place in the list.
    fn find_sub(&self, text: &str) -> (r: Option<usize>)
        ensures
            match r {
                Some(i) => i < self.sub_rules@.len() && first_sub(self@.sub_rules, text@) == Some(
                    self.sub_rules@[i as int]@,
                ),
                None => first_sub(self@.sub_rules, text@) is None,
            },
    {
        let ghost all = sub_rule_views(self.sub_rules@);
        let mut i: usize = 0;
        assert(all.skip(0) =~= all);
        while i < self.sub_rules.len()
            invariant
                i <= self.sub_rules@.len(),
                all == sub_rule_views(self.sub_rules@),
                first_sub(all, text@) == first_sub(all.skip(i as int), text@),
            decreases self.sub_rules@.len() - i,
        {
            assert(all.skip(i as int)[0] == self.sub_rules@[i as int]@);
            assert(all.skip(i as int).skip(1) =~= all.skip(i + 1));
            if self.sub_rules[i].matches(text) {
                return Some(i);
            }
            i += 1;
        }
        None
    }

    /// Says that the pattern was found.
    fn make_violation(
        &self,
        text: &str,
        line: usize,
        col: usize,
        end_line: usize,
        end_col: usize,
    ) -> (r: Violation)
        ensures
            r@ == self@.violation(
                text@,
                line as int,
                col as int,
                end_line as int,
                end_col as int,
            ),
    {
        let mut message = self.id.clone();
        message.append(": ");
        let help = match self.find_sub(text) {
            Some(i) => {
                message.append(self.sub_rules[i].message.as_str());
                copy_opt(&self.sub_rules[i].help)
            },
            None => {
                message.append(self.message.as_str());
                copy_opt(&self.help)
            },
        };
        Violation {
            rule: self.id.clone(),
            line,
            col,
            end_line,
            end_col,
            message,
            help,
            level: self.level,
            fixable: self.replacement.is_some(),
        }
    }
}

/// Whether a `# noqa` on the 0-based line `i` suppresses `code`.
pub(crate) fn is_quiet(q: &KptQuery<'_>, source_lines: &Vec<String>, i: usize, code: &str) -> (r: bool)
    requires
        strs(source_lines@) == lines_spec(q.source@),
    ensures
        r == q.input().quiet(i as int, code@),
{
    if q.ignore_noqa || i >= source_lines.len() {
        assert(strs(source_lines@).len() == source_lines@.len());
        return false;
    }
    assert(strs(source_lines@)[i as int] == source_lines@[i as int]@);
    has_noqa(source_lines[i].as_str(), code, q.noqa_aliases)
}

/// Adds what a pattern finds in the lines of a file.
fn check_lines(
    q: &KptQuery<'_>,
    p: &CompiledPattern,
    source_lines: &Vec<String>,
    out: &mut Vec<Violation>,
)
    requires
        strs(source_lines@) == lines_spec(q.source@),
    ensures
        violation_views(final(out)@) == violation_views(old(out)@) + q.input().in_lines(
            p@,
            lines_spec(q.source@).len() as int,
        ),
{
    let ghost before = violation_views(out@);
    let ghost f = q.input();
    let mut i: usize = 0;
    assert(before + Seq::<ViolationView>::empty() =~= before);
    assert(strs(source_lines@).len() == source_lines@.len());
    while i < source_lines.len()
        invariant
            i <= source_lines@.len(),
            strs(source_lines@) == lines_spec(q.source@),
            f == q.input(),
            before == violation_views(old(out)@),
            violation_views(out@) == before + f.in_lines(p@, i as int),
        decreases source_lines@.len() - i,
    {
        assert(strs(source_lines@)[i as int] == source_lines@[i as int]@);
        match find_widest(&p.regexes, source_lines[i].as_str()) {
            Some(m) => {
                if !is_quiet(q, source_lines, i, p.id.as_str()) {
                    let v = p.make_violation(
                        source_lines[i].as_str(),
                        i + 1,
                        m.0,
                        i + 1,
                        m.1,
                    );
                    let ghost prior = out@;
                    out.push(v);
                    assert(violation_views(out@) =~= violation_views(prior).push(v@));
                }
            },
            None => {},
        }
        assert(violation_views(out@) =~= before + f.in_lines(p@, i + 1));
        i += 1;
    }
}

/// Adds what one regular expression of a pattern finds in the whole text.
fn check_matches(
    q: &KptQuery<'_>,
    p: &CompiledPattern,
    k: usize,
    text: &Vec<char>,
    source_lines: &Vec<String>,
    out: &mut Vec<Violation>,
)
    requires
        strs(source_lines@) == lines_spec(q.source@),
        text@ == q.source@,
        countable(text@),
        k < p.regexes@.len(),
    ensures
        ({
            let matches = regex_find_all(p@.regexes[k as int], q.source@);
            violation_views(final(out)@) == violation_views(old(out)@) + q.input().in_matches(
                p@,
                matches,
                matches.len() as int,
            )
        }),
{
    let ghost before = violation_views(out@);
    let ghost f = q.input();
    let found = regex_all(&p.regexes[k], q.source);
    let ghost matches = regex_find_all(p@.regexes[k as int], q.source@);
    assert(p@.regexes[k as int] == regex_source(p.regexes@[k as int]));
    let mut i: usize = 0;
    assert(before + Seq::<ViolationView>::empty() =~= before);
    assert(spans_of(found@).len() == found@.len());
    while i < found.len()
        invariant
            i <= found@.len(),
            spans_of(found@) == matches,
            spans_of(found@).len() == found@.len(),
            forall|j: int| 0 <= j < found@.len() ==> is_span(q.source@, #[trigger] spans_of(found@)[j]),
            strs(source_lines@) == lines_spec(q.source@),
            text@ == q.source@,
            countable(text@),
            f == q.input(),
            before == violation_views(old(out)@),
            violation_views(out@) == before + f.in_matches(p@, matches, i as int),
        decreases found@.len() - i,
    {
        let m = found[i];
        assert(matches[i as int] == (m.0 as int, m.1 as int));
        assert(is_span(q.source@, spans_of(found@)[i as int]));
        let (line, col) = find_position(text.as_slice(), m.0);
        let (end_line, end_col) = find_position(text.as_slice(), m.1);
        if !is_quiet(q, source_lines, line - 1, p.id.as_str()) {
            let (a, b) = match (
                find_index(text.as_slice(), m.0),
                find_index(text.as_slice(), m.1),
            ) {
                (Some(a), Some(b)) => (a, b),
                _ => (0, 0),
            };
            proof {
                crate::edit::lemma_char_index_is_prefix(text@, m.0 as int);
                crate::edit::lemma_char_index_is_prefix(text@, m.1 as int);
                if a > b {
                    lemma_byte_len_monotone(text@, b as int, a as int);
                }
            }
            let matched = string(part(text.as_slice(), a, b));
            let v = p.make_violation(matched.as_str(), line, col, end_line, end_col);
            let ghost prior = out@;
            out.push(v);
            assert(violation_views(out@) =~= violation_views(prior).push(v@));
        }
        assert(violation_views(out@) =~= before + f.in_matches(p@, matches, i + 1));
        i += 1;
    }
}

/// Adds what a pattern finds in a file.
fn check_pattern(
    q: &KptQuery<'_>,
    p: &CompiledPattern,
    text: &Vec<char>,
    source_lines: &Vec<String>,
    out: &mut Vec<Violation>,
)
    requires
        strs(source_lines@) == lines_spec(q.source@),
        text@ == q.source@,
        countable(text@),
    ensures
        violation_views(final(out)@) == violation_views(old(out)@) + q.input().findings(p@),
{
    let ghost before = violation_views(out@);
    let ghost f = q.input();
    if !p.matches_file(q.path, q.config_dir, q.cwd) {
        assert(before + Seq::<ViolationView>::empty() =~= before);
        return;
    }
    if !p.multiline {
        check_lines(q, p, source_lines, out);
        return;
    }
    let mut k: usize = 0;
    assert(before + Seq::<ViolationView>::empty() =~= before);
    assert(p@.regexes.len() == p.regexes@.len());
    while k < p.regexes.len()
        invariant
            k <= p.regexes@.len(),
            strs(source_lines@) == lines_spec(q.source@),
            text@ == q.source@,
            countable(text@),
            f == q.input(),
            before == violation_views(old(out)@),
            violation_views(out@) == before + f.in_text(p@, k as int),
        decreases p.regexes@.len() - k,
    {
        check_matches(q, p, k, text, source_lines, out);
        assert(violation_views(out@) =~= before + f.in_text(p@, k + 1));
        k += 1;
    }
}

/// Reports what patterns find in a file. A text whose lines cannot be counted is not looked at.
pub fn check_patterns(q: &KptQuery<'_>, patterns: &Vec<CompiledPattern>) -> (r: Vec<Violation>)
    ensures
        violation_views(r@) == if countable(q.source@) {
            q.input().all_findings(pattern_views(patterns@))
        } else {
            Seq::empty()
        },
{
    let ghost all = pattern_views(patterns@);
    let ghost f = q.input();
    let text = chars(q.source);
    let source_lines = str_lines(q.source);
    let mut out: Vec<Violation> = Vec::new();
    let mut i: usize = 0;
    assert(violation_views(out@) =~= Seq::empty());
    if text.len() == usize::MAX {
        return out;
    }
    assert(all.take(0) =~= Seq::empty());
    while i < patterns.len()
        invariant
            i <= patterns@.len(),
            all == pattern_views(patterns@),
            f == q.input(),
            strs(source_lines@) == lines_spec(q.source@),
            text@ == q.source@,
            countable(text@),
            violation_views(out@) == f.all_findings(all.take(i as int)),
        decreases patterns@.len() - i,
    {
        assert(all.take(i + 1).drop_last() =~= all.take(i as int));
        assert(all.take(i + 1).last() == patterns@[i as int]@);
        check_pattern(q, &patterns[i], &text, &source_lines, &mut out);
        i += 1;
    }
    assert(all.take(all.len() as int) =~= all);
    out
}

// ---------------------------------------------------------------------------
// Where patterns come from
// ---------------------------------------------------------------------------

/// What the places that patterns can come from hold.
pub struct PatternSources {
    /// The rules of the configuration; `None` where it has no such list. A rule that cannot be
    /// read is absent.
    pub inline: Option<Vec<Option<RawPattern>>>,
    /// The rules of the file that the configuration names; `None` where it names none or the
    /// file cannot be read.
    pub rules_file: Option<Vec<RawPattern>>,
    /// The rules of `konform_patterns.toml` beside the configuration.
    pub toml_file: Option<Vec<RawPattern>>,
    /// The rules of `konform_patterns.yaml` beside the configuration.
    pub yaml_file: Option<Vec<RawPattern>>,
}

/// The rules that can be read, in order.
pub open spec fn readable(rules: Seq<Option<RawPattern>>) -> Seq<RawPattern>
    decreases rules.len(),
{
    if rules.len() == 0 {
        Seq::empty()
    } else {
        let before = readable(rules.drop_last());
        match rules.last() {
            Some(rule) => before.push(rule),
            None => before,
        }
    }
}

impl PatternSources {
    /// The rules that count: those of the configuration where it has any, or else those of the
    /// first file that could be read.
    pub open spec fn chosen(self) -> Seq<RawPattern> {
        if self.inline is Some && self.inline->0@.len() > 0 {
            readable(self.inline->0@)
        } else if self.rules_file is Some {
            self.rules_file->0@
        } else if self.toml_file is Some {
            self.toml_file->0@
        } else if self.yaml_file is Some {
            self.yaml_file->0@
        } else {
            Seq::empty()
        }
    }

    /// The compiled patterns of the place that counts.
    pub fn load_patterns(&self, default_level: Level, notes: &mut Vec<String>) -> (r: Vec<
        CompiledPattern,
    >)
        ensures
            pattern_views(r@) == all_compiled(self.chosen(), default_level),
            strs(final(notes)@) == strs(old(notes)@) + all_notes(self.chosen()),
    {
        match &self.inline {
            Some(rules) => {
                if rules.len() > 0 {
                    return compile_readable(rules, default_level, notes);
                }
            },
            None => {},
        }
        match (&self.rules_file, &self.toml_file, &self.yaml_file) {
            (Some(rules), _, _) => compile_patterns(rules, default_level, notes),
            (None, Some(rules), _) => compile_patterns(rules, default_level, notes),
            (None, None, Some(rules)) => compile_patterns(rules, default_level, notes),
            (None, None, None) => {
                let none: Vec<CompiledPattern> = Vec::new();
                assert(pattern_views(none@) =~= Seq::empty());
                assert(strs(notes@) + Seq::<Seq<char>>::empty() =~= strs(notes@));
                none
            },
        }
    }
}

/// Compiles the rules that can be read.
fn compile_readable(
    rules: &Vec<Option<RawPattern>>,
    default_level: Level,
    notes: &mut Vec<String>,
) -> (r: Vec<CompiledPattern>)
    ensures
        pattern_views(r@) == all_compiled(readable(rules@), default_level),
        strs(final(notes)@) == strs(old(notes)@) + all_notes(readable(rules@)),
{
    let ghost before_notes = strs(notes@);
    let mut out: Vec<CompiledPattern> = Vec::new();
    let mut i: usize = 0;
    assert(pattern_views(out@) =~= Seq::empty());
    assert(rules@.take(0) =~= Seq::empty());
    assert(before_notes + Seq::<Seq<char>>::empty() =~= before_notes);
    while i < rules.len()
        invariant
            i <= rules@.len(),
            before_notes == strs(old(notes)@),
            pattern_views(out@) == all_compiled(readable(rules@.take(i as int)), default_level),
            strs(notes@) == before_notes + all_notes(readable(rules@.take(i as int))),
        decreases rules@.len() - i,
    {
        assert(rules@.take(i + 1).drop_last() =~= rules@.take(i as int));
        assert(rules@.take(i + 1).last() == rules@[i as int]);
        let ghost prior = out@;
        match &rules[i] {
            Some(raw) => {
                let ghost so_far = readable(rules@.take(i as int));
                assert(so_far.push(*raw).drop_last() =~= so_far);
                match compile_one(raw, default_level, notes) {
                    Some(p) => {
                        out.push(p);
                        assert(pattern_views(out@) =~= pattern_views(prior).push(p@));
                    },
                    None => {},
                }
                assert(strs(notes@) =~= before_notes + all_notes(so_far.push(*raw)));
            },
            None => {},
        }
        i += 1;
    }
    assert(rules@.take(rules@.len() as int) =~= rules@);
    out
}

/// The path of a file that the configuration names: taken from the configuration's directory
/// where there is one.
pub open spec fn resolved(file_path: Seq<char>, config_dir: Option<Seq<char>>) -> Seq<char> {
    match config_dir {
        Some(dir) => joined(dir, file_path),
        None => file_path,
    }
}

/// The path of a file that the configuration names.
pub fn resolve_path(file_path: &str, config_dir: &Option<String>) -> (r: String)
    ensures
        r@ == resolved(file_path@, opt(*config_dir)),
{
    match config_dir {
        Some(dir) => join_path(dir.as_str(), file_path),
        None => file_path.to_owned(),
    }
}

/// Whether a pattern file is read as YAML, by its extension.
pub fn is_yaml(path: &str) -> (r: bool)
    ensures
        r == (extension_of(path@) == Some("yaml"@) || extension_of(path@) == Some("yml"@)),
{
    match extension(path) {
        Some(e) => e == "yaml".to_owned() || e == "yml".to_owned(),
        None => false,
    }
}

// ---------------------------------------------------------------------------
// The rule
// ---------------------------------------------------------------------------

/// The rule for user-defined patterns.
pub struct KptRule {
    /// The directory of the configuration file.
    pub config_dir: Option<String>,
    /// Whether a pattern in force has a replacement.
    pub can_fix: bool,
}

/// Whether one of several patterns has a replacement.
pub open spec fn any_replacement(patterns: Seq<PatternView>) -> bool {
    exists|i: int| 0 <= i < patterns.len() && (#[trigger] patterns[i]).replacement is Some
}

/// Whether one of several patterns has a replacement.
pub fn has_replacement(patterns: &Vec<CompiledPattern>) -> (r: bool)
    ensures
        r == any_replacement(pattern_views(patterns@)),
{
    let mut i: usize = 0;
    while i < patterns.len()
        invariant
            i <= patterns@.len(),
            forall|j: int|
                0 <= j < i ==> (#[trigger] pattern_views(patterns@)[j]).replacement is None,
        decreases patterns@.len() - i,
    {
        assert(pattern_views(patterns@)[i as int] == patterns@[i as int]@);
        if patterns[i].replacement.is_some() {
            return true;
        }
        i += 1;
    }
    assert(pattern_views(patterns@).len() == patterns@.len());
    false
}

impl KptRule {
    /// The rule for a configuration in `config_dir` without a pattern file beside it.
    pub fn new(config_dir: Option<String>) -> (r: KptRule)
        ensures
            opt(r.config_dir) == opt(config_dir),
            !r.can_fix,
    {
        KptRule { config_dir, can_fix: false }
    }

    /// The rule for a configuration in `config_dir` with the rules of the pattern file beside it.
    pub fn with_discovered(config_dir: Option<String>, discovered: Vec<RawPattern>) -> (r: KptRule)
        ensures
            opt(r.config_dir) == opt(config_dir),
            r.can_fix == any_replacement(all_compiled(discovered@, Level::Warning)),
    {
        let mut notes: Vec<String> = Vec::new();
        let patterns = compile_patterns(&discovered, Level::Warning, &mut notes);
        KptRule { config_dir, can_fix: has_replacement(&patterns) }
    }
}

/// The level of patterns that name none.
pub fn parse_default_level(level: &Option<String>) -> (r: Level)
    ensures
        r == level_or(opt(*level), Level::Warning),
{
    read_level(level, Level::Warning)
}

// ---------------------------------------------------------------------------
// Laws
// ---------------------------------------------------------------------------

/// A finding can be fixed exactly where its pattern has a replacement, and bears the pattern's
/// code and level.
pub proof fn law_findings_follow_their_pattern(f: FileInput, p: PatternView, k: int)
    requires
        0 <= k < f.findings(p).len(),
    ensures
        f.findings(p)[k].rule == p.id,
        f.findings(p)[k].level == p.level,
        f.findings(p)[k].fixable == (p.replacement is Some),
{
    if p.multiline {
        lemma_text_findings(f, p, p.regexes.len() as int, k);
    } else {
        lemma_line_findings(f, p, lines_spec(f.source).len() as int, k);
    }
}

proof fn lemma_line_findings(f: FileInput, p: PatternView, n: int, k: int)
    requires
        0 <= k < f.in_lines(p, n).len(),
    ensures
        f.in_lines(p, n)[k].rule == p.id,
        f.in_lines(p, n)[k].level == p.level,
        f.in_lines(p, n)[k].fixable == (p.replacement is Some),
    decreases n,
{
    if n > 0 && k < f.in_lines(p, n - 1).len() {
        lemma_line_findings(f, p, n - 1, k);
    }
}

proof fn lemma_match_findings(
    f: FileInput,
    p: PatternView,
    matches: Seq<(int, int)>,
    n: int,
    k: int,
)
    requires
        0 <= k < f.in_matches(p, matches, n).len(),
    ensures
        f.in_matches(p, matches, n)[k].rule == p.id,
        f.in_matches(p, matches, n)[k].level == p.level,
        f.in_matches(p, matches, n)[k].fixable == (p.replacement is Some),
    decreases n,
{
    if n > 0 && k < f.in_matches(p, matches, n - 1).len() {
        lemma_match_findings(f, p, matches, n - 1, k);
    }
}

proof fn lemma_text_findings(f: FileInput, p: PatternView, n: int, k: int)
    requires
        0 <= k < f.in_text(p, n).len(),
    ensures
        f.in_text(p, n)[k].rule == p.id,
        f.in_text(p, n)[k].level == p.level,
        f.in_text(p, n)[k].fixable == (p.replacement is Some),
    decreases n,
{
    if n > 0 {
        let before = f.in_text(p, n - 1);
        let matches = regex_find_all(p.regexes[n - 1], f.source);
        if k < before.len() {
            lemma_text_findings(f, p, n - 1, k);
        } else {
            lemma_match_findings(f, p, matches, matches.len() as int, k - before.len());
        }
    }
}

} // verus!
