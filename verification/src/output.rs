//! What a run prints: the findings in the chosen format, a summary and a hint.
use crate::formats::{
    github_lines, junit_report, list_document, render_github, render_gitlab, render_junit,
    render_list, render_sarif, sarif_document, Shape,
};
use crate::parse::{as_value, prettified};
use crate::report::{
    collect_findings, exit_code_for, file_views, finding_views, findings, run_fails, FileRecords,
    FileView, Finding, FindingView,
};
use crate::split::{decimal, join, join_spec, number};
use crate::text::{chars, ends_with, eq, part, str_starts_with, string, strs};
use crate::theme::{is_quiet, is_silent, palette, Palette, Preferences};
use crate::types::{number_or, or_number, or_text, text_or, ChangedFiles, Level, RecordView};
use vstd::prelude::*;
use vstd::string::*;

verus! {

/// How findings are shown.
#[derive(Clone, Copy, Debug, PartialEq, Eq, Structural)]
pub enum OutputFormat {
    /// A block for each finding, with an arrow and a help line.
    Full,
    /// One line for each finding.
    Concise,
    /// A JSON list.
    Json,
    /// GitHub workflow commands.
    Github,
    /// A GitLab code quality report.
    Gitlab,
    /// A SARIF document.
    Sarif,
    /// A JUnit report.
    Junit,
}

impl Default for OutputFormat {
    fn default() -> (r: Self)
        ensures
            r == OutputFormat::Full,
    {
        OutputFormat::Full
    }
}

// ---------------------------------------------------------------------------
// Category
// ---------------------------------------------------------------------------

/// Whether a character is an ASCII digit.
pub open spec fn is_digit(c: char) -> bool {
    '0' <= c <= '9'
}

/// The length of a text up to its first digit.
pub open spec fn digit_free(s: Seq<char>) -> int
    decreases s.len(),
{
    if s.len() == 0 || is_digit(s[0]) {
        0
    } else {
        1 + digit_free(s.skip(1))
    }
}

/// The category of a rule: what stands before the first digit of its code.
pub open spec fn category_of(code: Seq<char>) -> Seq<char> {
    code.take(digit_free(code))
}

/// The category of a rule: what stands before the first digit of its code.
pub fn rule_category(code: &str) -> (r: String)
    ensures
        r@ == category_of(code@),
{
    let text = chars(code);
    let mut i: usize = 0;
    assert(code@.skip(0) =~= code@);
    while i < text.len() && !('0' <= text[i] && text[i] <= '9')
        invariant
            i <= text@.len(),
            text@ == code@,
            digit_free(code@) == i + digit_free(code@.skip(i as int)),
        decreases text@.len() - i,
    {
        assert(code@.skip(i as int)[0] == code@[i as int]);
        assert(code@.skip(i as int).skip(1) =~= code@.skip(i + 1));
        i += 1;
    }
    if i < text.len() {
        assert(code@.skip(i as int)[0] == code@[i as int]);
    }
    let head = part(text.as_slice(), 0, i);
    assert(head@ =~= code@.take(i as int));
    string(head)
}

/// A category has no digit, and what follows it in the code starts with one.
pub proof fn law_category_ends_at_first_digit(code: Seq<char>)
    ensures
        0 <= digit_free(code) <= code.len(),
        forall|i: int| 0 <= i < digit_free(code) ==> !is_digit(#[trigger] code[i]),
        digit_free(code) < code.len() ==> is_digit(code[digit_free(code)]),
    decreases code.len(),
{
    if code.len() > 0 && !is_digit(code[0]) {
        law_category_ends_at_first_digit(code.skip(1));
        assert forall|i: int| 0 <= i < digit_free(code) implies !is_digit(#[trigger] code[i]) by {
            if i > 0 {
                assert(code.skip(1)[i - 1] == code[i]);
            }
        }
    }
}

// ---------------------------------------------------------------------------
// Findings on the screen
// ---------------------------------------------------------------------------

/// The level of a finding in its colour, with the code of the rule and the mark of what can be
/// fixed.
pub open spec fn heading(p: Palette, r: RecordView) -> Seq<char> {
    let is_error = r.shown_level() == "error"@;
    (if is_error {
        p.error_text("error"@)
    } else {
        p.warning_text("warning"@)
    }) + p.brackets_text("["@ + r.shown_rule() + "]"@, is_error) + (if r.shown_fixable() {
        "["@ + p.label_text("*"@) + "]"@
    } else {
        ""@
    })
}

/// `path:line:column`.
pub open spec fn location(f: FindingView) -> Seq<char> {
    f.path + ":"@ + decimal(or_number(f.record.line, 0) as nat) + ":"@ + decimal(
        f.record.shown_column() as nat,
    )
}

/// A finding on one line.
pub open spec fn concise_line(p: Palette, f: FindingView) -> Seq<char> {
    location(f) + ": "@ + heading(p, f.record) + " "@ + f.record.shown_message() + "\n"@
}

/// A help text without the mark that says that the finding is fixable.
pub open spec fn help_shown(help: Seq<char>) -> Seq<char> {
    let mark = " (fixable)"@;
    if help.len() >= mark.len() && help.skip(help.len() - mark.len()) == mark {
        help.take(help.len() - mark.len())
    } else {
        help
    }
}

/// The help line of a finding.
pub open spec fn help_line(p: Palette, help: Seq<char>) -> Seq<char> {
    if help.len() == 0 {
        ""@
    } else {
        "  "@ + p.label_text("help"@) + ": "@ + help_shown(help) + "\n"@
    }
}

/// A finding as a block.
pub open spec fn full_block(p: Palette, f: FindingView) -> Seq<char> {
    heading(p, f.record) + ": "@ + p.strong_text(f.record.shown_message()) + "\n  "@ + p.arrow_mark(
        "-->"@,
    ) + " "@ + location(f) + "\n"@ + help_line(p, or_text(f.record.help, ""@)) + "\n"@
}

/// Several findings, each as a block or on one line.
pub open spec fn shown(p: Palette, full: bool, f: Seq<FindingView>) -> Seq<char>
    decreases f.len(),
{
    if f.len() == 0 {
        ""@
    } else {
        shown(p, full, f.drop_last()) + if full {
            full_block(p, f.last())
        } else {
            concise_line(p, f.last())
        }
    }
}

fn write_heading(p: &Palette, f: &Finding<'_>) -> (r: String)
    ensures
        r@ == heading(*p, f@.record),
{
    let is_error = eq(f.record.read_level_name().as_str(), "error");
    let mut code = "[".to_owned();
    code.append(f.record.read_rule().as_str());
    code.append("]");
    let mut out = if is_error {
        p.error("error")
    } else {
        p.warning("warning")
    };
    out.append(p.rule_brackets(code.as_str(), is_error).as_str());
    if f.record.is_fixable() {
        let mut badge = "[".to_owned();
        badge.append(p.fixable_star().as_str());
        badge.append("]");
        out.append(badge.as_str());
    } else {
        out.append("");
    }
    out
}

fn write_location(f: &Finding<'_>) -> (r: String)
    ensures
        r@ == location(f@),
{
    let mut out = f.path.to_owned();
    out.append(":");
    out.append(number(number_or(f.record.line, 0)).as_str());
    out.append(":");
    out.append(number(f.record.read_column()).as_str());
    out
}

fn write_concise_line(p: &Palette, f: &Finding<'_>) -> (r: String)
    ensures
        r@ == concise_line(*p, f@),
{
    let mut out = write_location(f);
    out.append(": ");
    out.append(write_heading(p, f).as_str());
    out.append(" ");
    out.append(f.record.read_message().as_str());
    out.append("\n");
    out
}

fn write_help_shown(help: &str) -> (r: String)
    ensures
        r@ == help_shown(help@),
{
    let text = chars(help);
    let mark = chars(" (fixable)");
    if ends_with(text.as_slice(), mark.as_slice()) {
        let head = part(text.as_slice(), 0, text.len() - mark.len());
        assert(head@ =~= help@.take(help@.len() - mark@.len()));
        string(head)
    } else {
        help.to_owned()
    }
}

fn write_help_line(p: &Palette, help: &str) -> (r: String)
    ensures
        r@ == help_line(*p, help@),
{
    if help.is_empty() {
        "".to_owned()
    } else {
        let mut out = "  ".to_owned();
        out.append(p.help_label("help").as_str());
        out.append(": ");
        out.append(write_help_shown(help).as_str());
        out.append("\n");
        out
    }
}

fn write_full_block(p: &Palette, f: &Finding<'_>) -> (r: String)
    ensures
        r@ == full_block(*p, f@),
{
    let mut out = write_heading(p, f);
    out.append(": ");
    out.append(p.message(f.record.read_message().as_str()).as_str());
    out.append("\n  ");
    out.append(p.arrow("-->").as_str());
    out.append(" ");
    out.append(write_location(f).as_str());
    out.append("\n");
    out.append(write_help_line(p, text_or(&f.record.help, "").as_str()).as_str());
    out.append("\n");
    out
}

/// Writes findings, each as a block or on one line.
fn write_shown(p: &Palette, full: bool, found: &Vec<Finding<'_>>) -> (r: String)
    ensures
        r@ == shown(*p, full, finding_views(found@)),
{
    let ghost all = finding_views(found@);
    let mut out = "".to_owned();
    let mut i: usize = 0;
    assert(all.take(0) =~= Seq::empty());
    while i < found.len()
        invariant
            i <= found@.len(),
            all == finding_views(found@),
            out@ == shown(*p, full, all.take(i as int)),
        decreases found@.len() - i,
    {
        assert(all.take(i + 1).drop_last() =~= all.take(i as int));
        assert(all.take(i + 1).last() == found@[i as int]@);
        let text = if full {
            write_full_block(p, &found[i])
        } else {
            write_concise_line(p, &found[i])
        };
        out.append(text.as_str());
        i += 1;
    }
    assert(all.take(all.len() as int) =~= all);
    out
}

// ---------------------------------------------------------------------------
// Summary
// ---------------------------------------------------------------------------

/// How many findings are errors.
pub open spec fn errors_in(f: Seq<FindingView>) -> nat
    decreases f.len(),
{
    if f.len() == 0 {
        0
    } else {
        errors_in(f.drop_last()) + if f.last().record.shown_level() == "error"@ {
            1nat
        } else {
            0nat
        }
    }
}

/// How many findings are fixable.
pub open spec fn fixable_in(f: Seq<FindingView>) -> nat
    decreases f.len(),
{
    if f.len() == 0 {
        0
    } else {
        fixable_in(f.drop_last()) + if f.last().record.shown_fixable() {
            1nat
        } else {
            0nat
        }
    }
}

/// A count with a noun, in the plural unless the count is 1.
pub open spec fn counted(n: nat, noun: Seq<char>) -> Seq<char> {
    decimal(n) + " "@ + noun + if n == 1 {
        ""@
    } else {
        "s"@
    }
}

/// The summary of a run.
pub open spec fn summary(p: Palette, f: Seq<FindingView>) -> Seq<char> {
    let errors = errors_in(f);
    let warnings = (f.len() - errors) as nat;
    if f.len() == 0 {
        "All checks passed.\n"@
    } else {
        "Found "@ + (if warnings == 0 {
            counted(errors, "error"@)
        } else if errors == 0 {
            counted(warnings, "warning"@)
        } else {
            counted(errors, "error"@) + " and "@ + counted(warnings, "warning"@)
        }) + ".\n"@ + (if fixable_in(f) > 0 {
            "["@ + p.summary_text() + "] "@ + decimal(fixable_in(f))
                + " fixable with the `--fix` option.\n"@
        } else {
            ""@
        })
    }
}

fn write_counted(n: u64, noun: &str) -> (r: String)
    ensures
        r@ == counted(n as nat, noun@),
{
    let mut out = number(n);
    out.append(" ");
    out.append(noun);
    if n == 1 {
        out.append("");
    } else {
        out.append("s");
    }
    out
}

/// Writes the summary of a run.
fn write_summary(p: &Palette, found: &Vec<Finding<'_>>) -> (r: String)
    ensures
        r@ == summary(*p, finding_views(found@)),
{
    let ghost all = finding_views(found@);
    let mut errors: usize = 0;
    let mut fixable: usize = 0;
    let mut i: usize = 0;
    assert(all.take(0) =~= Seq::empty());
    while i < found.len()
        invariant
            i <= found@.len(),
            all == finding_views(found@),
            errors <= i,
            fixable <= i,
            errors == errors_in(all.take(i as int)),
            fixable == fixable_in(all.take(i as int)),
        decreases found@.len() - i,
    {
        assert(all.take(i + 1).drop_last() =~= all.take(i as int));
        assert(all.take(i + 1).last() == found@[i as int]@);
        if eq(found[i].record.read_level_name().as_str(), "error") {
            errors += 1;
        }
        if found[i].record.is_fixable() {
            fixable += 1;
        }
        i += 1;
    }
    assert(all.take(all.len() as int) =~= all);
    if found.len() == 0 {
        return "All checks passed.\n".to_owned();
    }
    let warnings: usize = found.len() - errors;
    let mut out = "Found ".to_owned();
    if warnings == 0 {
        out.append(write_counted(errors as u64, "error").as_str());
    } else if errors == 0 {
        out.append(write_counted(warnings as u64, "warning").as_str());
    } else {
        let mut both = write_counted(errors as u64, "error");
        both.append(" and ");
        both.append(write_counted(warnings as u64, "warning").as_str());
        out.append(both.as_str());
    }
    out.append(".\n");
    if fixable > 0 {
        let mut line = "[".to_owned();
        line.append(p.summary_star().as_str());
        line.append("] ");
        line.append(number(fixable as u64).as_str());
        line.append(" fixable with the `--fix` option.\n");
        out.append(line.as_str());
    } else {
        out.append("");
    }
    out
}

// ---------------------------------------------------------------------------
// The whole output
// ---------------------------------------------------------------------------

/// What goes to standard output, what to standard error, and the exit code.
pub struct Printed {
    pub stdout: String,
    pub stderr: String,
    pub code: i32,
}

/// What goes to standard output.
pub open spec fn stdout_of(
    files: Seq<FileView>,
    format: OutputFormat,
    preferences: Preferences,
) -> Seq<char> {
    let f = findings(files);
    if preferences.silent() {
        ""@
    } else {
        match format {
            OutputFormat::Json => prettified(as_value(list_document(Shape::Screen, f))) + "\n"@,
            OutputFormat::Github => github_lines(f),
            OutputFormat::Gitlab => prettified(as_value(list_document(Shape::Gitlab, f))) + "\n"@,
            OutputFormat::Sarif => prettified(as_value(sarif_document(f))) + "\n"@,
            OutputFormat::Junit => junit_report(f),
            OutputFormat::Full | OutputFormat::Concise => ""@,
        }
    }
}

/// What goes to standard error.
pub open spec fn stderr_of(
    files: Seq<FileView>,
    format: OutputFormat,
    preferences: Preferences,
    p: Palette,
) -> Seq<char> {
    let f = findings(files);
    if preferences.silent() {
        ""@
    } else {
        match format {
            OutputFormat::Full => shown(p, true, f) + if preferences.quiet() {
                ""@
            } else {
                summary(p, f)
            },
            OutputFormat::Concise => shown(p, false, f),
            _ => ""@,
        }
    }
}

/// In silent mode nothing is printed, whatever was found.
pub proof fn law_silence_prints_nothing(
    files: Seq<FileView>,
    format: OutputFormat,
    preferences: Preferences,
    p: Palette,
)
    requires
        preferences.silent(),
    ensures
        stdout_of(files, format, preferences).len() == 0,
        stderr_of(files, format, preferences, p).len() == 0,
{
    reveal_strlit("");
}

/// Prints all findings in the chosen format. In silent mode nothing is printed; the exit code is
/// the same.
pub fn print_violations(
    reported: &Vec<FileRecords>,
    changed_files: &ChangedFiles,
    level: Level,
    changed_files_level: Level,
    output_format: OutputFormat,
    preferences: &Preferences,
    colors: bool,
) -> (r: Printed)
    ensures
        r.stdout@ == stdout_of(file_views(reported@), output_format, *preferences),
        r.stderr@ == stderr_of(
            file_views(reported@),
            output_format,
            *preferences,
            (Palette { colors, theme: crate::theme::ACTIVE_THEME }),
        ),
        r.code == if run_fails(
            file_views(reported@),
            strs(changed_files.files@),
            level,
            changed_files_level,
        ) {
            1int
        } else {
            0
        },
{
    let code: i32 = exit_code_for(reported, changed_files, level, changed_files_level);
    if is_silent(preferences) {
        return Printed { stdout: "".to_owned(), stderr: "".to_owned(), code };
    }
    let p = palette(colors);
    let found = collect_findings(reported);
    let mut stdout = "".to_owned();
    let mut stderr = "".to_owned();
    match output_format {
        OutputFormat::Full => {
            stderr = write_shown(&p, true, &found);
            if is_quiet(preferences) {
                stderr.append("");
            } else {
                stderr.append(write_summary(&p, &found).as_str());
            }
        },
        OutputFormat::Concise => {
            stderr = write_shown(&p, false, &found);
        },
        OutputFormat::Json => {
            stdout = render_list(Shape::Screen, reported);
            stdout.append("\n");
        },
        OutputFormat::Github => {
            stdout = render_github(reported);
        },
        OutputFormat::Gitlab => {
            stdout = render_gitlab(reported);
            stdout.append("\n");
        },
        OutputFormat::Sarif => {
            stdout = render_sarif(reported);
            stdout.append("\n");
        },
        OutputFormat::Junit => {
            stdout = render_junit(reported);
        },
    }
    Printed { stdout, stderr, code }
}

/// What is written to a file: as on the screen for the machine formats, and JSON for the others.
pub open spec fn file_text(f: Seq<FindingView>, format: OutputFormat) -> Seq<char> {
    match format {
        OutputFormat::Github => github_lines(f),
        OutputFormat::Gitlab => prettified(as_value(list_document(Shape::Gitlab, f))),
        OutputFormat::Sarif => prettified(as_value(sarif_document(f))),
        OutputFormat::Junit => junit_report(f),
        OutputFormat::Json | OutputFormat::Full | OutputFormat::Concise => prettified(
            as_value(list_document(Shape::File, f)),
        ),
    }
}

/// The text to write to a file.
pub fn render_for_file(reported: &Vec<FileRecords>, format: OutputFormat) -> (r: String)
    ensures
        r@ == file_text(findings(file_views(reported@)), format),
{
    match format {
        OutputFormat::Github => render_github(reported),
        OutputFormat::Gitlab => render_gitlab(reported),
        OutputFormat::Sarif => render_sarif(reported),
        OutputFormat::Junit => render_junit(reported),
        _ => render_list(Shape::File, reported),
    }
}

// ---------------------------------------------------------------------------
// Hint
// ---------------------------------------------------------------------------

/// Whether an argument is a flag of `check` that takes no value.
pub open spec fn is_bool_flag(arg: Seq<char>) -> bool {
    arg == "--no-cache"@ || arg == "--fix"@ || arg == "--fix-only"@
}

/// Whether an argument is a flag of `check` whose value follows.
pub open spec fn is_value_flag(arg: Seq<char>) -> bool {
    arg == "--level"@ || arg == "--changed-files-level"@ || arg == "--output-path"@ || arg
        == "--since-ref"@
}

/// Whether an argument is such a flag with its value behind an equals sign.
pub open spec fn is_flag_with_value(arg: Seq<char>) -> bool {
    "--level="@.is_prefix_of(arg) || "--changed-files-level="@.is_prefix_of(arg)
        || "--output-path="@.is_prefix_of(arg) || "--since-ref="@.is_prefix_of(arg)
}

/// The arguments that `check --fix` takes over.
pub open spec fn kept_args(args: Seq<Seq<char>>) -> Seq<Seq<char>>
    decreases args.len(),
{
    if args.len() == 0 {
        Seq::empty()
    } else if args[0] != "check"@ && !is_bool_flag(args[0]) && is_value_flag(args[0]) {
        if args.len() == 1 {
            Seq::empty()
        } else {
            kept_args(args.skip(2))
        }
    } else if args[0] == "check"@ || is_bool_flag(args[0]) || is_flag_with_value(args[0]) {
        kept_args(args.skip(1))
    } else {
        seq![args[0]] + kept_args(args.skip(1))
    }
}

/// The command that fixes what `check` with the given arguments finds.
pub open spec fn fix_command(args: Seq<Seq<char>>) -> Seq<char> {
    join_spec(seq!["konform"@, "check"@, "--fix"@] + kept_args(args), " "@)
}

/// The hint that names that command.
pub open spec fn fix_hint(p: Palette, args: Seq<Seq<char>>) -> Seq<char> {
    p.hint_text("hint:"@) + " To auto-fix violations run: "@ + p.strong_text(fix_command(args))
}

fn bool_flag(arg: &str) -> (r: bool)
    ensures
        r == is_bool_flag(arg@),
{
    eq(arg, "--no-cache") || eq(arg, "--fix") || eq(arg, "--fix-only")
}

fn value_flag(arg: &str) -> (r: bool)
    ensures
        r == is_value_flag(arg@),
{
    eq(arg, "--level") || eq(arg, "--changed-files-level") || eq(arg, "--output-path") || eq(
        arg,
        "--since-ref",
    )
}

fn flag_with_value(arg: &str) -> (r: bool)
    ensures
        r == is_flag_with_value(arg@),
{
    str_starts_with(arg, "--level=") || str_starts_with(arg, "--changed-files-level=")
        || str_starts_with(arg, "--output-path=") || str_starts_with(arg, "--since-ref=")
}

/// The hint that names the command that fixes what `check` with the given arguments finds.
pub fn format_fix_hint(args: &Vec<String>, colors: bool) -> (r: String)
    ensures
        r@ == fix_hint(
            (Palette { colors, theme: crate::theme::ACTIVE_THEME }),
            strs(args@),
        ),
{
    let ghost all = strs(args@);
    let ghost front = seq!["konform"@, "check"@, "--fix"@];
    let mut out: Vec<String> = Vec::new();
    out.push("konform".to_owned());
    out.push("check".to_owned());
    out.push("--fix".to_owned());
    assert(strs(out@) =~= front);
    assert(all.skip(0) =~= all);
    let mut i: usize = 0;
    while i < args.len()
        invariant
            i <= args@.len(),
            all == strs(args@),
            front + kept_args(all) == strs(out@) + kept_args(all.skip(i as int)),
        decreases args@.len() - i,
    {
        let arg = args[i].as_str();
        let ghost rest = all.skip(i as int);
        assert(rest[0] == arg@);
        assert(rest.skip(1) =~= all.skip(i + 1));
        if !eq(arg, "check") && !bool_flag(arg) && value_flag(arg) {
            if args.len() - i >= 2 {
                assert(rest.skip(2) =~= all.skip(i + 2));
                i += 2;
            } else {
                assert(all.skip(args@.len() as int) =~= Seq::empty());
                i = args.len();
            }
            continue;
        }
        if !(eq(arg, "check") || bool_flag(arg) || flag_with_value(arg)) {
            let ghost before = strs(out@);
            out.push(args[i].clone());
            assert(strs(out@) =~= before.push(arg@));
            assert(before + (seq![arg@] + kept_args(rest.skip(1))) =~= strs(out@) + kept_args(
                rest.skip(1),
            ));
        }
        i += 1;
    }
    assert(all.skip(all.len() as int) =~= Seq::empty());
    assert(strs(out@) + Seq::<Seq<char>>::empty() =~= strs(out@));
    let p = palette(colors);
    let command = join(&out, " ");
    let mut hint = p.hint_label("hint:");
    hint.append(" To auto-fix violations run: ");
    hint.append(p.hint_cmd(command.as_str()).as_str());
    hint
}

} // verus!
