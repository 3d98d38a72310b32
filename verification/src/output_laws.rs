//! What is said of each finding in every format, and of all of them together.
use crate::formats::{
    class_name, finding_value, finding_values, github_line, github_lines, junit_case, junit_cases, junit_report,
    rules_of, sarif_document, sarif_location, Shape,
};
use crate::json::{field_in, member_of, JsonView};
use crate::ordered::{lemma_with_text, sorted};
use crate::output::{
    category_of, concise_line, digit_free, errors_in, file_text, fix_command, fixable_in, full_block, heading, help_shown, is_bool_flag,
    is_flag_with_value, is_value_flag, kept_args, shown, stderr_of, stdout_of, summary,
    OutputFormat,
};
use crate::parse::{as_value, prettified};
use crate::report::{findings, lemma_filter_push, without_code, FileView, FindingView};
use crate::split::{decimal, join_spec};
use crate::statistics::{count_of, place_count, ranked, spaces, table, table_line, table_lines};
use crate::theme::{Palette, Preferences};
use crate::xml::escaped;
use vstd::prelude::*;

verus! {

// ---------------------------------------------------------------------------
// One finding
// ---------------------------------------------------------------------------

/// Whether a finding says all that is shown of it: its message begins with the code of its rule.
pub open spec fn says(
    f: FindingView,
    rule: Seq<char>,
    message: Seq<char>,
    level: Seq<char>,
    line: u64,
    column: u64,
) -> bool {
    &&& f.record.rule == Some(rule)
    &&& f.record.message == Some(rule + ": "@ + message)
    &&& f.record.level == Some(level)
    &&& f.record.line == Some(line)
    &&& f.record.start_character == Some(column)
}

proof fn lemma_message(rule: Seq<char>, message: Seq<char>)
    ensures
        without_code(rule + ": "@ + message, rule) == message,
{
    let code = rule + ": "@;
    let all = rule + ": "@ + message;
    assert(all.take(code.len() as int) =~= code);
    assert(code.is_prefix_of(all));
    assert(all.skip(code.len() as int) =~= message);
}

/// A GitHub command gives the level, the file, the line, the column, the rule and the message
/// without the code in front.
pub proof fn law_github_commands_say_all(
    f: FindingView,
    rule: Seq<char>,
    message: Seq<char>,
    level: Seq<char>,
    line: u64,
    column: u64,
)
    requires
        says(f, rule, message, level, line, column),
        level == "error"@ || level == "warning"@,
    ensures
        github_line(f) == "::"@ + level + " file="@ + f.path + ",line="@ + decimal(line as nat)
            + ",col="@ + decimal(column as nat) + ",title="@ + rule + "::"@ + message + "\n"@,
{
    lemma_message(rule, message);
    reveal_strlit("error");
    reveal_strlit("warning");
    assert("error"@[0] == 'e' && "warning"@[0] == 'w');
}

/// A JUnit case names the file, the line and the column, and its failure gives the rule and the
/// message, escaped and without the code in front.
pub proof fn law_junit_cases_say_all(
    f: FindingView,
    rule: Seq<char>,
    message: Seq<char>,
    level: Seq<char>,
    line: u64,
    column: u64,
)
    requires
        says(f, rule, message, level, line, column),
    ensures
        ("    <testcase name=\""@ + f.path + ":"@ + decimal(line as nat) + ":"@ + decimal(
            column as nat,
        ) + "\" classname=\""@).is_prefix_of(junit_case(f)),
        ("\">\n<failure message=\""@ + escaped(message) + "\" type=\""@ + rule
            + "\"/>\n</testcase>\n"@).is_suffix_of(junit_case(f)),
{
    lemma_message(rule, message);
    let front = "    <testcase name=\""@ + f.path + ":"@ + decimal(line as nat) + ":"@ + decimal(
        column as nat,
    ) + "\" classname=\""@;
    let back = "\">\n<failure message=\""@ + escaped(message) + "\" type=\""@ + rule
        + "\"/>\n</testcase>\n"@;
    let all = junit_case(f);
    assert(all =~= front + class_name(f.path) + back);
    assert(all.take(front.len() as int) =~= front);
    assert(all.skip(all.len() - back.len()) =~= back);
}

/// On one line a finding begins with its place and ends with its message, without the code in
/// front.
pub proof fn law_concise_lines_say_where_and_what(
    p: Palette,
    f: FindingView,
    rule: Seq<char>,
    message: Seq<char>,
    level: Seq<char>,
    line: u64,
    column: u64,
)
    requires
        says(f, rule, message, level, line, column),
    ensures
        (f.path + ":"@ + decimal(line as nat) + ":"@ + decimal(column as nat)
            + ": "@).is_prefix_of(concise_line(p, f)),
        (" "@ + message + "\n"@).is_suffix_of(concise_line(p, f)),
{
    lemma_message(rule, message);
    let front = f.path + ":"@ + decimal(line as nat) + ":"@ + decimal(column as nat) + ": "@;
    let back = " "@ + message + "\n"@;
    let all = concise_line(p, f);
    assert(all =~= front + heading(p, f.record) + back);
    assert(all.take(front.len() as int) =~= front);
    assert(all.skip(all.len() - back.len()) =~= back);
}

/// The heading of a finding gives its level and its rule, and marks what can be fixed. Without
/// colours it is just that.
pub proof fn law_headings_say_level_and_rule(
    p: Palette,
    f: FindingView,
    rule: Seq<char>,
    message: Seq<char>,
    level: Seq<char>,
    line: u64,
    column: u64,
)
    requires
        says(f, rule, message, level, line, column),
        level == "error"@ || level == "warning"@,
        !p.colors,
    ensures
        heading(p, f.record) == level + "["@ + rule + "]"@ + if f.record.fixable
            == Some(true) {
            "[*]"@
        } else {
            Seq::empty()
        },
{
    reveal_strlit("error");
    reveal_strlit("warning");
    reveal_strlit("");
    reveal_strlit("[");
    reveal_strlit("]");
    reveal_strlit("*");
    reveal_strlit("[*]");
    assert("error"@[0] == 'e' && "warning"@[0] == 'w');
    assert("["@ + "*"@ + "]"@ =~= "[*]"@);
    assert(heading(p, f.record) =~= level + "["@ + rule + "]"@ + if f.record.fixable
        == Some(true) {
        "[*]"@
    } else {
        Seq::empty()
    });
}

/// A block gives the heading, the message, the place and the help, without the mark of what is
/// fixable.
pub proof fn law_blocks_say_all(
    p: Palette,
    f: FindingView,
    rule: Seq<char>,
    message: Seq<char>,
    level: Seq<char>,
    line: u64,
    column: u64,
    help: Seq<char>,
)
    requires
        says(f, rule, message, level, line, column),
        !p.colors,
        help.len() > 0,
        !" (fixable)"@.is_suffix_of(help),
        f.record.help == Some(help) || f.record.help == Some(help + " (fixable)"@),
    ensures
        full_block(p, f) == heading(p, f.record) + ": "@ + message + "\n  --> "@ + f.path + ":"@
            + decimal(line as nat) + ":"@ + decimal(column as nat) + "\n  help: "@ + help
            + "\n\n"@,
{
    lemma_message(rule, message);
    let mark = " (fixable)"@;
    assert((help + mark).skip(help.len() as int) =~= mark);
    assert((help + mark).take(help.len() as int) =~= help);
    assert(help_shown(help + mark) == help);
    assert(help_shown(help) == help);
    reveal_strlit("\n  --> ");
    reveal_strlit("\n  ");
    reveal_strlit("-->");
    reveal_strlit(" ");
    reveal_strlit("\n");
    reveal_strlit("  ");
    reveal_strlit("help");
    reveal_strlit(": ");
    reveal_strlit("\n  help: ");
    reveal_strlit("\n\n");
    let place = f.path + ":"@ + decimal(line as nat) + ":"@ + decimal(column as nat);
    assert("\n  --> "@ =~= "\n  "@ + "-->"@ + " "@);
    assert("\n  help: "@ =~= "\n"@ + ("  "@ + "help"@ + ": "@));
    assert("\n\n"@ =~= "\n"@ + "\n"@);
    let head = heading(p, f.record) + ": "@ + message;
    assert(full_block(p, f) =~= head + ("\n  "@ + "-->"@ + " "@) + place + ("\n"@ + ("  "@ + "help"@
        + ": "@)) + help + ("\n"@ + "\n"@));
    assert(head + "\n  --> "@ + f.path + ":"@ + decimal(line as nat) + ":"@ + decimal(column as nat)
        + "\n  help: "@ + help + "\n\n"@ =~= head + "\n  --> "@ + place + "\n  help: "@ + help
        + "\n\n"@);
}

/// In JSON each field has what was found.
pub proof fn law_json_values_say_all(
    shape: Shape,
    f: FindingView,
    rule: Seq<char>,
    message: Seq<char>,
    level: Seq<char>,
    line: u64,
    column: u64,
)
    requires
        says(f, rule, message, level, line, column),
        shape == Shape::Screen || shape == Shape::File,
    ensures
        ({
            let v = finding_value(shape, f);
            &&& member_of(v, "filename"@) == Some(JsonView::Text(f.path))
            &&& member_of(v, "line"@) == Some(JsonView::Number(decimal(line as nat)))
            &&& member_of(v, "col"@) == Some(JsonView::Number(decimal(column as nat)))
            &&& member_of(v, "rule"@) == Some(JsonView::Text(rule))
            &&& member_of(v, "message"@) == Some(JsonView::Text(message))
            &&& member_of(v, "level"@) == Some(JsonView::Text(level))
            &&& f.record.fixable is Some ==> member_of(v, "fixable"@) == Some(
                JsonView::Bool(f.record.fixable->0),
            )
        }),
{
    lemma_message(rule, message);
    lemma_names();
    reveal_with_fuel(field_in, 9);
    let v = finding_value(shape, f)->Object_0;
    assert(v.skip(1)[0] == v[1]);
    assert(v.skip(1).skip(1)[0] == v[2]);
    assert(v.skip(1).skip(1).skip(1)[0] == v[3]);
    assert(v.skip(1).skip(1).skip(1).skip(1)[0] == v[4]);
    assert(v.skip(1).skip(1).skip(1).skip(1).skip(1)[0] == v[5]);
    assert(v.skip(1).skip(1).skip(1).skip(1).skip(1).skip(1)[0] == v[6]);
    if shape == Shape::Screen {
        assert(v.skip(1).skip(1).skip(1).skip(1).skip(1).skip(1).skip(1)[0] == v[7]);
    }
}

/// The names of fields differ in their first two letters or their lengths.
proof fn lemma_names()
    ensures
        "filename"@.len() == 8 && "line"@.len() == 4 && "col"@.len() == 3 && "end_line"@.len() == 8,
        "rule"@.len() == 4 && "message"@.len() == 7 && "level"@.len() == 5 && "fixable"@.len() == 7,
        "filename"@[0] == 'f' && "line"@[0] == 'l' && "end_line"@[0] == 'e' && "rule"@[0] == 'r'
            && "message"@[0] == 'm' && "fixable"@[0] == 'f',
{
    reveal_strlit("filename");
    reveal_strlit("line");
    reveal_strlit("col");
    reveal_strlit("end_line");
    reveal_strlit("rule");
    reveal_strlit("message");
    reveal_strlit("level");
    reveal_strlit("fixable");
}

// ---------------------------------------------------------------------------
// All findings
// ---------------------------------------------------------------------------

proof fn lemma_assoc(a: Seq<char>, b: Seq<char>, c: Seq<char>)
    ensures
        a + b + c == a + (b + c),
{
    assert(a + b + c =~= a + (b + c));
}

/// What is shown on the screen of two lists of findings is what is shown of the one and then of
/// the other: no finding is left out or shown twice.
pub proof fn law_findings_are_shown_one_by_one(
    p: Palette,
    full: bool,
    a: Seq<FindingView>,
    b: Seq<FindingView>,
)
    ensures
        shown(p, full, a + b) == shown(p, full, a) + shown(p, full, b),
    decreases b.len(),
{
    let all = a + b;
    if b.len() == 0 {
        reveal_strlit("");
        assert(all =~= a);
        assert(shown(p, full, a) + ""@ =~= shown(p, full, a));
    } else {
        let rest = b.drop_last();
        law_findings_are_shown_one_by_one(p, full, a, rest);
        assert(all.drop_last() =~= a + rest);
        assert(all.last() == b.last());
        let one = if full {
            full_block(p, b.last())
        } else {
            concise_line(p, b.last())
        };
        lemma_assoc(shown(p, full, a), shown(p, full, rest), one);
    }
}

/// The commands of two lists of findings are those of the one and then of the other.
pub proof fn law_findings_are_commands_one_by_one(a: Seq<FindingView>, b: Seq<FindingView>)
    ensures
        github_lines(a + b) == github_lines(a) + github_lines(b),
    decreases b.len(),
{
    let all = a + b;
    if b.len() == 0 {
        assert(all =~= a);
        assert(github_lines(a) + Seq::<char>::empty() =~= github_lines(a));
    } else {
        let rest = b.drop_last();
        law_findings_are_commands_one_by_one(a, rest);
        assert(all.drop_last() =~= a + rest);
        assert(all.last() == b.last());
        lemma_assoc(github_lines(a), github_lines(rest), github_line(b.last()));
    }
}

/// The cases of two lists of findings are those of the one and then of the other.
pub proof fn law_findings_are_cases_one_by_one(a: Seq<FindingView>, b: Seq<FindingView>)
    ensures
        junit_cases(a + b) == junit_cases(a) + junit_cases(b),
    decreases b.len(),
{
    let all = a + b;
    if b.len() == 0 {
        assert(all =~= a);
        assert(junit_cases(a) + Seq::<char>::empty() =~= junit_cases(a));
    } else {
        let rest = b.drop_last();
        law_findings_are_cases_one_by_one(a, rest);
        assert(all.drop_last() =~= a + rest);
        assert(all.last() == b.last());
        lemma_assoc(junit_cases(a), junit_cases(rest), junit_case(b.last()));
    }
}

/// The values of two lists of findings are those of the one and then of the other.
pub proof fn law_findings_are_values_one_by_one(
    shape: Shape,
    a: Seq<FindingView>,
    b: Seq<FindingView>,
)
    ensures
        finding_values(shape, a + b) == finding_values(shape, a) + finding_values(shape, b),
{
    assert(finding_values(shape, a + b) =~= finding_values(shape, a) + finding_values(shape, b));
}

/// One finding alone is shown as a block or on one line, as a command, as a case and as a value;
/// nothing is shown where there are none.
pub proof fn law_one_finding_is_shown(p: Palette, shape: Shape, f: FindingView)
    ensures
        shown(p, true, seq![f]) == full_block(p, f),
        shown(p, false, seq![f]) == concise_line(p, f),
        github_lines(seq![f]) == github_line(f),
        junit_cases(seq![f]) == junit_case(f),
        finding_values(shape, seq![f]) == seq![finding_value(shape, f)],
        shown(p, true, Seq::empty()).len() == 0,
        github_lines(Seq::empty()).len() == 0,
        junit_cases(Seq::empty()).len() == 0,
{
    reveal_strlit("");
    let s = seq![f];
    assert(s.drop_last() =~= Seq::empty());
    assert(s.last() == f);
    assert(shown(p, true, s.drop_last()) == ""@);
    assert(shown(p, false, s.drop_last()) == ""@);
    assert(github_lines(s.drop_last()) =~= Seq::empty());
    assert(junit_cases(s.drop_last()) =~= Seq::empty());
    assert(""@ + full_block(p, f) =~= full_block(p, f));
    assert(""@ + concise_line(p, f) =~= concise_line(p, f));
    assert(Seq::<char>::empty() + github_line(f) =~= github_line(f));
    assert(Seq::<char>::empty() + junit_case(f) =~= junit_case(f));
    assert(finding_values(shape, s) =~= seq![finding_value(shape, f)]);
}

/// A JUnit report counts its cases and holds all of them.
pub proof fn law_junit_reports_count_their_cases(f: Seq<FindingView>) -> (parts: (
    Seq<char>,
    Seq<char>,
))
    ensures
        junit_report(f) == parts.0 + junit_cases(f) + parts.1,
        ("tests=\""@ + decimal(f.len()) + "\" failures=\""@ + decimal(f.len())
            + "\" errors=\"0\">\n"@).is_suffix_of(parts.0),
{
    let head =
        "<?xml version=\"1.0\" encoding=\"UTF-8\"?>\n<testsuites>\n<testsuite name=\"konform\" tests=\""@;
    let count = "tests=\""@ + decimal(f.len()) + "\" failures=\""@ + decimal(f.len())
        + "\" errors=\"0\">\n"@;
    let front = head + decimal(f.len()) + "\" failures=\""@ + decimal(f.len())
        + "\" errors=\"0\">\n"@;
    let back = "</testsuite>\n</testsuites>\n"@;
    reveal_strlit(
        "<?xml version=\"1.0\" encoding=\"UTF-8\"?>\n<testsuites>\n<testsuite name=\"konform\" tests=\"",
    );
    reveal_strlit("tests=\"");
    assert(head.skip(head.len() - 7) =~= "tests=\""@);
    assert(front.skip(front.len() - count.len()) =~= count);
    assert(junit_report(f) =~= front + junit_cases(f) + back);
    (front, back)
}

/// Machine formats go to standard output and leave standard error empty; the others go to standard
/// error and leave standard output empty. Nothing of what was found is left out unless nothing is
/// to be printed at all.
pub proof fn law_formats_go_where_they_are_read(
    files: Seq<FileView>,
    format: OutputFormat,
    preferences: Preferences,
    p: Palette,
)
    requires
        !preferences.silent(),
    ensures
        ({
            let f = findings(files);
            let out = stdout_of(files, format, preferences);
            let err = stderr_of(files, format, preferences, p);
            let human = format == OutputFormat::Full || format == OutputFormat::Concise;
            &&& human ==> out.len() == 0
            &&& !human ==> err.len() == 0
            &&& format == OutputFormat::Full ==> shown(p, true, f).is_prefix_of(err)
            &&& format == OutputFormat::Full && !preferences.quiet() ==> summary(
                p,
                f,
            ).is_suffix_of(err)
            &&& format == OutputFormat::Concise ==> err == shown(p, false, f)
            &&& format == OutputFormat::Github ==> out == github_lines(f)
            &&& format == OutputFormat::Junit ==> out == junit_report(f)
            &&& format == OutputFormat::Json ==> out == prettified(
                as_value(JsonView::List(finding_values(Shape::Screen, f))),
            ) + "\n"@
            &&& format == OutputFormat::Gitlab ==> out == prettified(
                as_value(JsonView::List(finding_values(Shape::Gitlab, f))),
            ) + "\n"@
            &&& format == OutputFormat::Sarif ==> out == prettified(as_value(sarif_document(f)))
                + "\n"@
        }),
{
    reveal_strlit("");
    let f = findings(files);
    let err = stderr_of(files, format, preferences, p);
    if format == OutputFormat::Full {
        assert(err.take(shown(p, true, f).len() as int) =~= shown(p, true, f));
        assert(err.skip(shown(p, true, f).len() as int) =~= if preferences.quiet() {
            ""@
        } else {
            summary(p, f)
        });
    }
}

// ---------------------------------------------------------------------------
// Counts
// ---------------------------------------------------------------------------

/// The errors, the fixable findings and those of a rule add up over two lists, and of one finding
/// are one where it is such and none where it is not.
pub proof fn law_counts_add_up(a: Seq<FindingView>, b: Seq<FindingView>, rule: Seq<char>)
    ensures
        errors_in(a + b) == errors_in(a) + errors_in(b),
        fixable_in(a + b) == fixable_in(a) + fixable_in(b),
        count_of(a + b, rule) == count_of(a, rule) + count_of(b, rule),
        b.len() == 1 && b[0].record.level is Some ==> errors_in(b) == if b[0].record.level->0
            == "error"@ {
            1nat
        } else {
            0
        },
        b.len() == 1 ==> fixable_in(b) == if b[0].record.fixable == Some(true) {
            1nat
        } else {
            0
        },
        b.len() == 1 && b[0].record.rule is Some ==> count_of(b, rule) == if b[0].record.rule->0
            == rule {
            1nat
        } else {
            0
        },
    decreases b.len(),
{
    let all = a + b;
    if b.len() == 0 {
        assert(all =~= a);
    } else {
        law_counts_add_up(a, b.drop_last(), rule);
        assert(all.drop_last() =~= a + b.drop_last());
        assert(all.last() == b.last());
        if b.len() == 1 {
            assert(b.drop_last() =~= Seq::empty());
            assert(errors_in(b.drop_last()) == 0);
            assert(fixable_in(b.drop_last()) == 0);
            assert(count_of(b.drop_last(), rule) == 0);
        }
    }
}

/// The part of the summary on what can be fixed.
pub open spec fn fixable_note(p: Palette, f: Seq<FindingView>) -> Seq<char> {
    if fixable_in(f) > 0 {
        "["@ + p.summary_text() + "] "@ + decimal(fixable_in(f))
            + " fixable with the `--fix` option.\n"@
    } else {
        Seq::empty()
    }
}

/// Where there are errors alone, the summary counts them, and says how many findings can be fixed
/// where any can.
pub proof fn law_the_summary_counts_errors(p: Palette, f: Seq<FindingView>)
    requires
        f.len() > 0,
        errors_in(f) == f.len(),
    ensures
        summary(p, f) == "Found "@ + decimal(f.len()) + if f.len() == 1 {
            " error.\n"@
        } else {
            " errors.\n"@
        } + fixable_note(p, f),
{
    lemma_words();
    let n = decimal(f.len());
    if f.len() == 1 {
        assert("Found "@ + (n + " "@ + "error"@ + ""@) + ".\n"@ =~= "Found "@ + n + (" "@ + "error"@
            + ".\n"@));
    } else {
        assert("Found "@ + (n + " "@ + "error"@ + "s"@) + ".\n"@ =~= "Found "@ + n + (" "@
            + "error"@ + "s"@ + ".\n"@));
    }
    assert(""@ =~= Seq::<char>::empty());
}

/// Where there are warnings alone, the summary counts them.
pub proof fn law_the_summary_counts_warnings(p: Palette, f: Seq<FindingView>)
    requires
        f.len() > 0,
        errors_in(f) == 0,
    ensures
        summary(p, f) == "Found "@ + decimal(f.len()) + if f.len() == 1 {
            " warning.\n"@
        } else {
            " warnings.\n"@
        } + fixable_note(p, f),
{
    lemma_words();
    let n = decimal(f.len());
    if f.len() == 1 {
        assert("Found "@ + (n + " "@ + "warning"@ + ""@) + ".\n"@ =~= "Found "@ + n + (" "@
            + "warning"@ + ".\n"@));
    } else {
        assert("Found "@ + (n + " "@ + "warning"@ + "s"@) + ".\n"@ =~= "Found "@ + n + (" "@
            + "warning"@ + "s"@ + ".\n"@));
    }
    assert(""@ =~= Seq::<char>::empty());
}

/// Where there are both, the summary counts the errors and then the warnings.
pub proof fn law_the_summary_counts_both(
    p: Palette,
    f: Seq<FindingView>,
    errors: nat,
    warnings: nat,
)
    requires
        errors_in(f) == errors,
        f.len() == errors + warnings,
        errors > 0,
        warnings > 0,
    ensures
        summary(p, f) == "Found "@ + decimal(errors) + if errors == 1 {
            " error"@
        } else {
            " errors"@
        } + " and "@ + decimal(warnings) + if warnings == 1 {
            " warning.\n"@
        } else {
            " warnings.\n"@
        } + fixable_note(p, f),
{
    lemma_words();
    let e = decimal(errors);
    let w = decimal(warnings);
    let es = if errors == 1 {
        ""@
    } else {
        "s"@
    };
    let ws = if warnings == 1 {
        ""@
    } else {
        "s"@
    };
    assert(warnings == (f.len() - errors_in(f)) as nat);
    lemma_regrouped("Found "@, e, " "@, "error"@, es, " and "@, w, "warning"@, ws, ".\n"@);
    assert(" "@ + "error"@ + ""@ =~= " "@ + "error"@);
    assert(" "@ + "warning"@ + ""@ =~= " "@ + "warning"@);
    assert(""@ =~= Seq::<char>::empty());
}

proof fn lemma_regrouped(
    found: Seq<char>,
    e: Seq<char>,
    gap: Seq<char>,
    error: Seq<char>,
    es: Seq<char>,
    also: Seq<char>,
    w: Seq<char>,
    warning: Seq<char>,
    ws: Seq<char>,
    dot: Seq<char>,
)
    ensures
        found + (e + gap + error + es + also + (w + gap + warning + ws)) + dot == found + e + (gap
            + error + es) + also + w + (gap + warning + ws + dot),
{
    let a = e + gap + error + es + also;
    lemma_assoc(e + gap, error, es);
    lemma_assoc(e, gap, error + es);
    lemma_assoc(gap, error, es);
    assert(a == e + (gap + error + es) + also);
    let b = gap + warning + ws;
    lemma_assoc(w + gap, warning, ws);
    lemma_assoc(w, gap, warning + ws);
    lemma_assoc(gap, warning, ws);
    assert(w + gap + warning + ws == w + b);
    lemma_assoc(found, a, w + b);
    lemma_assoc(found + a, w, b);
    lemma_assoc(found + a + w, b, dot);
    assert(found + (a + (w + b)) + dot == found + a + w + (b + dot));
    lemma_assoc(found, e + (gap + error + es), also);
    lemma_assoc(found, e, gap + error + es);
}

proof fn lemma_words()
    ensures
        ""@.len() == 0,
        " error"@ == " "@ + "error"@,
        " errors"@ == " "@ + "error"@ + "s"@,
        " error.\n"@ == " "@ + "error"@ + ".\n"@,
        " errors.\n"@ == " "@ + "error"@ + "s"@ + ".\n"@,
        " warning.\n"@ == " "@ + "warning"@ + ".\n"@,
        " warnings.\n"@ == " "@ + "warning"@ + "s"@ + ".\n"@,
{
    reveal_strlit("");
    reveal_strlit(" ");
    reveal_strlit("s");
    reveal_strlit(".\n");
    reveal_strlit("error");
    reveal_strlit("warning");
    reveal_strlit(" error");
    reveal_strlit(" errors");
    reveal_strlit(" error.\n");
    reveal_strlit(" errors.\n");
    reveal_strlit(" warning.\n");
    reveal_strlit(" warnings.\n");
    assert(" error"@ =~= " "@ + "error"@);
    assert(" errors"@ =~= " "@ + "error"@ + "s"@);
    assert(" error.\n"@ =~= " "@ + "error"@ + ".\n"@);
    assert(" errors.\n"@ =~= " "@ + "error"@ + "s"@ + ".\n"@);
    assert(" warning.\n"@ =~= " "@ + "warning"@ + ".\n"@);
    assert(" warnings.\n"@ =~= " "@ + "warning"@ + "s"@ + ".\n"@);
}

/// The rules that are listed are those of the findings, each once and in order.
pub proof fn law_every_broken_rule_is_listed(f: Seq<FindingView>)
    ensures
        sorted(rules_of(f)),
        forall|r: Seq<char>|
            rules_of(f).contains(r) <==> exists|i: int|
                0 <= i < f.len() && (#[trigger] f[i]).record.shown_rule() == r,
    decreases f.len(),
{
    if f.len() > 0 {
        let rest = f.drop_last();
        law_every_broken_rule_is_listed(rest);
        lemma_with_text(rules_of(rest), f.last().record.shown_rule());
        assert forall|r: Seq<char>| rules_of(f).contains(r) <==> exists|i: int|
            0 <= i < f.len() && (#[trigger] f[i]).record.shown_rule() == r by {
            if rules_of(rest).contains(r) {
                let i = choose|i: int|
                    0 <= i < rest.len() && (#[trigger] rest[i]).record.shown_rule() == r;
                assert(f[i] == rest[i]);
            }
            if exists|i: int| 0 <= i < f.len() && (#[trigger] f[i]).record.shown_rule() == r {
                let i = choose|i: int|
                    0 <= i < f.len() && (#[trigger] f[i]).record.shown_rule() == r;
                if i < rest.len() {
                    assert(rest[i] == f[i]);
                }
            }
            if f.last().record.shown_rule() == r {
                assert(f[f.len() - 1].record.shown_rule() == r);
            }
        }
    } else {
        assert forall|r: Seq<char>| !rules_of(f).contains(r) by {}
    }
}

proof fn lemma_placed(s: Seq<(Seq<char>, nat)>, x: (Seq<char>, nat), y: (Seq<char>, nat))
    ensures
        place_count(s, x).contains(y) <==> s.contains(y) || x == y,
    decreases s.len(),
{
    if s.len() == 0 || s.last().1 >= x.1 {
        crate::edit::lemma_push_holds(s, x, y);
    } else {
        let rest = s.drop_last();
        lemma_placed(rest, x, y);
        crate::edit::lemma_push_holds(place_count(rest, x), s.last(), y);
        crate::edit::lemma_push_holds(rest, s.last(), y);
        assert(s =~= rest.push(s.last()));
    }
}

/// The statistics give for each rule how many findings break it.
pub proof fn law_statistics_count_each_rule(
    f: Seq<FindingView>,
    rules: Seq<Seq<char>>,
    entry: (Seq<char>, nat),
)
    ensures
        ranked(f, rules).contains(entry) <==> rules.contains(entry.0) && entry.1 == count_of(
            f,
            entry.0,
        ),
    decreases rules.len(),
{
    if rules.len() > 0 {
        let rest = rules.drop_last();
        law_statistics_count_each_rule(f, rest, entry);
        lemma_placed(ranked(f, rest), (rules.last(), count_of(f, rules.last())), entry);
        crate::edit::lemma_push_holds(rest, rules.last(), entry.0);
        assert(rules =~= rest.push(rules.last()));
    }
}

// ---------------------------------------------------------------------------
// The hint
// ---------------------------------------------------------------------------

/// Whether an argument belongs to `check` alone: the command itself or one of its flags.
pub open spec fn is_of_check(arg: Seq<char>) -> bool {
    arg == "check"@ || is_bool_flag(arg) || is_value_flag(arg) || is_flag_with_value(arg)
}

/// What the hint takes over are arguments that were given, and none of those of `check` alone.
pub proof fn law_only_given_arguments_are_kept(args: Seq<Seq<char>>, i: int)
    requires
        0 <= i < kept_args(args).len(),
    ensures
        args.contains(kept_args(args)[i]),
        !is_of_check(kept_args(args)[i]),
    decreases args.len(),
{
    let x = kept_args(args)[i];
    if args[0] != "check"@ && !is_bool_flag(args[0]) && is_value_flag(args[0]) {
        let rest = args.skip(2);
        law_only_given_arguments_are_kept(rest, i);
        let j = choose|j: int| 0 <= j < rest.len() && rest[j] == x;
        assert(args[j + 2] == x);
    } else {
        let rest = args.skip(1);
        if is_of_check(args[0]) {
            law_only_given_arguments_are_kept(rest, i);
            let j = choose|j: int| 0 <= j < rest.len() && rest[j] == x;
            assert(args[j + 1] == x);
        } else if i > 0 {
            law_only_given_arguments_are_kept(rest, i - 1);
            let j = choose|j: int| 0 <= j < rest.len() && rest[j] == x;
            assert(args[j + 1] == x);
        } else {
            assert(args[0] == x);
        }
    }
}

/// Arguments that are not of `check` alone are all kept, in their order, and what follows them is
/// kept as it would be alone.
pub proof fn law_other_arguments_are_kept(a: Seq<Seq<char>>, b: Seq<Seq<char>>)
    requires
        forall|i: int| 0 <= i < a.len() ==> !is_of_check(#[trigger] a[i]),
    ensures
        kept_args(a + b) == a + kept_args(b),
    decreases a.len(),
{
    let all = a + b;
    if a.len() == 0 {
        assert(all =~= b);
        assert(a + kept_args(b) =~= kept_args(b));
    } else {
        let rest = a.skip(1);
        assert forall|i: int| 0 <= i < rest.len() implies !is_of_check(#[trigger] rest[i]) by {
            assert(rest[i] == a[i + 1]);
        }
        law_other_arguments_are_kept(rest, b);
        assert(all.skip(1) =~= rest + b);
        assert(!is_of_check(a[0]));
        assert(all[0] == a[0]);
        assert(seq![a[0]] + (rest + kept_args(b)) =~= a + kept_args(b));
    }
}

/// A flag whose value follows is dropped with its value.
pub proof fn law_flags_are_dropped_with_their_values(
    flag: Seq<char>,
    value: Seq<char>,
    b: Seq<Seq<char>>,
)
    requires
        is_value_flag(flag),
    ensures
        kept_args(seq![flag, value] + b) == kept_args(b),
        kept_args(seq![flag]).len() == 0,
{
    let all = seq![flag, value] + b;
    assert(all.skip(2) =~= b);
    reveal_strlit("check");
    reveal_strlit("--no-cache");
    reveal_strlit("--fix");
    reveal_strlit("--fix-only");
    reveal_strlit("--level");
    reveal_strlit("--changed-files-level");
    reveal_strlit("--output-path");
    reveal_strlit("--since-ref");
    assert(flag.len() > 5);
    assert(flag[2] != 'f' && flag[2] != 'n');
    assert("--fix-only"@[2] == 'f');
    assert("--no-cache"@[2] == 'n');
    assert(flag != "check"@ && !is_bool_flag(flag));
}

// ---------------------------------------------------------------------------
// GitLab and SARIF
// ---------------------------------------------------------------------------

/// For GitLab a finding is critical unless it is a warning, and has its message, its file and its
/// line.
pub proof fn law_gitlab_values_say_all(
    f: FindingView,
    rule: Seq<char>,
    message: Seq<char>,
    level: Seq<char>,
    line: u64,
    column: u64,
)
    requires
        says(f, rule, message, level, line, column),
    ensures
        ({
            let v = finding_value(Shape::Gitlab, f);
            let place = member_of(v, "location"@);
            &&& member_of(v, "description"@) == Some(JsonView::Text(message))
            &&& level == "warning"@ ==> member_of(v, "severity"@) == Some(
                JsonView::Text("minor"@),
            )
            &&& level != "warning"@ ==> member_of(v, "severity"@) == Some(
                JsonView::Text("critical"@),
            )
            &&& place is Some
            &&& member_of(place->0, "path"@) == Some(JsonView::Text(f.path))
            &&& member_of(place->0, "lines"@) is Some
            &&& member_of(member_of(place->0, "lines"@)->0, "begin"@) == Some(
                JsonView::Number(decimal(line as nat)),
            )
        }),
{
    lemma_message(rule, message);
    reveal_strlit("description");
    reveal_strlit("fingerprint");
    reveal_strlit("severity");
    reveal_strlit("location");
    reveal_strlit("path");
    reveal_strlit("lines");
    assert("description"@[0] == 'd' && "fingerprint"@[0] == 'f' && "severity"@[0] == 's'
        && "location"@[0] == 'l' && "path"@[0] == 'p' && "lines"@[0] == 'l');
    reveal_with_fuel(field_in, 5);
    let v = finding_value(Shape::Gitlab, f)->Object_0;
    assert(v[0].0 == "description"@ && v[1].0 == "fingerprint"@ && v[2].0 == "severity"@ && v[3].0
        == "location"@);
    assert(v.skip(1)[0] == v[1]);
    assert(v.skip(1).skip(1)[0] == v[2]);
    assert(v.skip(1).skip(1).skip(1)[0] == v[3]);
    let p = v[3].1->Object_0;
    assert(p[0].0 == "path"@ && p[1].0 == "lines"@);
    assert(p.skip(1)[0] == p[1]);
}

/// For SARIF a finding has its rule, its level, its message and one place.
pub proof fn law_sarif_values_say_all(
    f: FindingView,
    rule: Seq<char>,
    message: Seq<char>,
    level: Seq<char>,
    line: u64,
    column: u64,
)
    requires
        says(f, rule, message, level, line, column),
    ensures
        ({
            let v = finding_value(Shape::Sarif, f);
            &&& member_of(v, "ruleId"@) == Some(JsonView::Text(rule))
            &&& member_of(v, "level"@) == Some(JsonView::Text(level))
            &&& member_of(v, "message"@) is Some
            &&& member_of(member_of(v, "message"@)->0, "text"@) == Some(JsonView::Text(message))
            &&& member_of(v, "locations"@) == Some(JsonView::List(seq![sarif_location(f)]))
        }),
{
    lemma_message(rule, message);
    reveal_strlit("ruleId");
    reveal_strlit("level");
    reveal_strlit("message");
    reveal_strlit("locations");
    assert("ruleId"@.len() == 6 && "level"@.len() == 5 && "message"@.len() == 7
        && "locations"@.len() == 9);
    reveal_with_fuel(field_in, 5);
    let v = finding_value(Shape::Sarif, f)->Object_0;
    assert(v[0].0 == "ruleId"@ && v[1].0 == "level"@ && v[2].0 == "message"@ && v[3].0
        == "locations"@);
    assert(v.skip(1)[0] == v[1]);
    assert(v.skip(1).skip(1)[0] == v[2]);
    assert(v.skip(1).skip(1).skip(1)[0] == v[3]);
}

/// The place of a finding in SARIF gives the file, the line and the column.
pub proof fn law_sarif_places_say_where(f: FindingView, line: u64, column: u64)
    requires
        f.record.line == Some(line),
        f.record.start_character == Some(column),
    ensures
        ({
            let place = member_of(sarif_location(f), "physicalLocation"@);
            let file = member_of(place->0, "artifactLocation"@);
            let region = member_of(place->0, "region"@);
            &&& place is Some && file is Some && region is Some
            &&& member_of(file->0, "uri"@) == Some(JsonView::Text(f.path))
            &&& member_of(region->0, "startLine"@) == Some(JsonView::Number(decimal(line as nat)))
            &&& member_of(region->0, "startColumn"@) == Some(
                JsonView::Number(decimal(column as nat)),
            )
        }),
{
    reveal_strlit("artifactLocation");
    reveal_strlit("region");
    reveal_strlit("startLine");
    reveal_strlit("startColumn");
    assert("artifactLocation"@.len() == 16 && "region"@.len() == 6 && "startLine"@.len() == 9
        && "startColumn"@.len() == 11);
    reveal_with_fuel(field_in, 3);
    let p = sarif_location(f)->Object_0[0].1->Object_0;
    assert(p[0].0 == "artifactLocation"@ && p[1].0 == "region"@);
    assert(p.skip(1)[0] == p[1]);
    let r = p[1].1->Object_0;
    assert(r[0].0 == "startLine"@ && r[1].0 == "startColumn"@);
    assert(r.skip(1)[0] == r[1]);
}

/// What is written to a file is what a machine format prints, and JSON for the others.
pub proof fn law_files_hold_what_is_printed(f: Seq<FindingView>)
    ensures
        file_text(f, OutputFormat::Github) == github_lines(f),
        file_text(f, OutputFormat::Junit) == junit_report(f),
        file_text(f, OutputFormat::Sarif) == prettified(as_value(sarif_document(f))),
        file_text(f, OutputFormat::Gitlab) == prettified(
            as_value(JsonView::List(finding_values(Shape::Gitlab, f))),
        ),
        file_text(f, OutputFormat::Json) == prettified(
            as_value(JsonView::List(finding_values(Shape::File, f))),
        ),
        file_text(f, OutputFormat::Full) == file_text(f, OutputFormat::Json),
        file_text(f, OutputFormat::Concise) == file_text(f, OutputFormat::Json),
{
}

// ---------------------------------------------------------------------------
// The table
// ---------------------------------------------------------------------------

/// Each rule has a line of the table with its count and its code.
pub proof fn law_table_lines_say_count_and_rule(
    a: Seq<(Seq<char>, nat)>,
    b: Seq<(Seq<char>, nat)>,
    names: Seq<(Seq<char>, Seq<char>)>,
    rule: Seq<char>,
    n: nat,
)
    requires
        decimal(n).len() <= 4,
        rule.len() <= 10,
    ensures
        table_lines(a + b, names) == table_lines(a, names) + table_lines(b, names),
        table_lines(seq![(rule, n)], names) == table_line((rule, n), names),
        (Seq::new((4 - decimal(n).len()) as nat, |i: int| ' ') + decimal(n) + "  "@ + rule + Seq::new(
            (10 - rule.len()) as nat,
            |i: int| ' ',
        ) + "  "@).is_prefix_of(table_line((rule, n), names)),
    decreases b.len(),
{
    let all = a + b;
    let one = seq![(rule, n)];
    assert(one.drop_last() =~= Seq::empty());
    assert(table_lines(one.drop_last(), names) =~= Seq::empty());
    assert(one.last() == (rule, n));
    let line = table_line((rule, n), names);
    assert(Seq::<char>::empty() + line =~= line);
    let count = decimal(n);
    assert(spaces(4 - count.len()) =~= Seq::new((4 - count.len()) as nat, |i: int| ' '));
    assert(spaces(10 - rule.len()) =~= Seq::new((10 - rule.len()) as nat, |i: int| ' '));
    let front = spaces(4 - count.len()) + count + "  "@ + rule + spaces(10 - rule.len()) + "  "@;
    assert(line.take(front.len() as int) =~= front);
    if b.len() == 0 {
        assert(all =~= a);
        assert(table_lines(a, names) + table_lines(b, names) =~= table_lines(a, names));
    } else {
        let rest = b.drop_last();
        law_table_lines_say_count_and_rule(a, rest, names, rule, n);
        assert(all.drop_last() =~= a + rest);
        assert(all.last() == b.last());
        lemma_assoc(table_lines(a, names), table_lines(rest, names), table_line(b.last(), names));
    }
}

/// The table is that of the rules that were broken, below an empty line.
pub proof fn law_the_table_shows_all_rules(f: Seq<FindingView>, names: Seq<(Seq<char>, Seq<char>)>)
    ensures
        f.len() > 0 ==> table(f, names) == "\n"@ + table_lines(ranked(f, rules_of(f)), names),
        table(Seq::empty(), names).len() == 0,
{
}

/// What a finding does not say has a default: the rule is unknown, the level that of an error, the
/// line the first and the column the first.
pub proof fn law_absent_fields_have_defaults(f: FindingView)
    requires
        f.record.rule is None,
        f.record.level is None,
        f.record.line is None,
        f.record.start_character is None,
        f.record.message is None,
    ensures
        github_line(f) == "::error file="@ + f.path + ",line=1,col=1,title=UNKNOWN::\n"@,
{
    reveal_strlit("");
    reveal_strlit("error");
    reveal_strlit("warning");
    reveal_strlit("::");
    reveal_strlit(" file=");
    reveal_strlit("::error file=");
    reveal_strlit(",line=");
    reveal_strlit(",col=");
    reveal_strlit(",title=");
    reveal_strlit("UNKNOWN");
    reveal_strlit("\n");
    reveal_strlit(",line=1,col=1,title=UNKNOWN::\n");
    reveal_strlit(": ");
    assert("error"@.len() != "warning"@.len());
    reveal_with_fuel(decimal, 2);
    assert(decimal(1) =~= seq!['1']);
    assert(without_code(""@, "UNKNOWN"@).len() == 0);
    let none = without_code(""@, "UNKNOWN"@);
    assert(none =~= Seq::empty());
    assert("::error file="@ =~= "::"@ + "error"@ + " file="@);
    assert(",line=1,col=1,title=UNKNOWN::\n"@ =~= ",line="@ + seq!['1'] + ",col="@ + seq!['1']
        + ",title="@ + "UNKNOWN"@ + "::"@ + none + "\n"@);
    assert(github_line(f) =~= "::"@ + "error"@ + " file="@ + f.path + (",line="@ + seq!['1']
        + ",col="@ + seq!['1'] + ",title="@ + "UNKNOWN"@ + "::"@ + none + "\n"@));
}

/// The name of a class is the path with dots for slashes, and no dots around it.
pub proof fn law_class_names_are_dotted_paths(path: Seq<char>)
    requires
        path.len() > 0,
        path[0] != '.' && path[0] != '/',
        path.last() != '.' && path.last() != '/',
    ensures
        class_name(path).len() == path.len(),
        forall|i: int|
            0 <= i < path.len() ==> #[trigger] class_name(path)[i] == if path[i] == '/' {
                '.'
            } else {
                path[i]
            },
        class_name("./"@ + path) == class_name(path),
{
    let dotted = path.map_values(
        |c: char|
            if c == '/' {
                '.'
            } else {
                c
            },
    );
    assert(dotted[0] != '.');
    assert(dotted.last() != '.');
    assert(class_name(path) == dotted);
    reveal_strlit("./");
    let all = ("./"@ + path).map_values(
        |c: char|
            if c == '/' {
                '.'
            } else {
                c
            },
    );
    assert(all[0] == '.');
    assert(all.skip(1)[0] == '.');
    assert(all.skip(1).skip(1) =~= dotted);
    reveal_with_fuel(crate::formats::without_dots, 3);
}

/// The category of a rule is what its code has before its first digit.
pub proof fn law_categories_end_at_digits(category: Seq<char>, rest: Seq<char>)
    requires
        forall|i: int| 0 <= i < category.len() ==> !('0' <= #[trigger] category[i] <= '9'),
        rest.len() > 0 ==> '0' <= rest[0] <= '9',
    ensures
        category_of(category + rest) == category,
    decreases category.len(),
{
    lemma_digit_free(category, rest);
    assert((category + rest).take(category.len() as int) =~= category);
}

proof fn lemma_digit_free(category: Seq<char>, rest: Seq<char>)
    requires
        forall|i: int| 0 <= i < category.len() ==> !('0' <= #[trigger] category[i] <= '9'),
        rest.len() > 0 ==> '0' <= rest[0] <= '9',
    ensures
        digit_free(category + rest) == category.len(),
    decreases category.len(),
{
    let all = category + rest;
    if category.len() == 0 {
        assert(all =~= rest);
    } else {
        let c = category.skip(1);
        assert forall|i: int| 0 <= i < c.len() implies !('0' <= #[trigger] c[i] <= '9') by {
            assert(c[i] == category[i + 1]);
        }
        lemma_digit_free(c, rest);
        assert(all.skip(1) =~= c + rest);
        assert(all[0] == category[0]);
        assert(!('0' <= category[0] <= '9'));
    }
}

/// The command in the hint checks and fixes with the arguments that are kept.
pub proof fn law_the_hint_fixes(args: Seq<Seq<char>>)
    ensures
        kept_args(args).len() == 0 ==> fix_command(args) == "konform check --fix"@,
        kept_args(args).len() > 0 ==> fix_command(args) == "konform check --fix "@ + join_spec(
            kept_args(args),
            " "@,
        ),
{
    reveal_strlit("konform");
    reveal_strlit("check");
    reveal_strlit("--fix");
    reveal_strlit(" ");
    reveal_strlit("konform check --fix");
    reveal_strlit("konform check --fix ");
    let front = seq!["konform"@, "check"@, "--fix"@];
    let two = front.drop_last();
    let one = two.drop_last();
    assert(one =~= seq!["konform"@]);
    assert(join_spec(one, " "@) == "konform"@);
    assert(join_spec(two, " "@) == "konform"@ + " "@ + "check"@);
    assert(join_spec(front, " "@) =~= "konform check --fix"@);
    let kept = kept_args(args);
    if kept.len() == 0 {
        assert(front + kept =~= front);
    } else {
        crate::text_laws::law_joining_two_lists(front, kept, " "@);
        assert("konform check --fix"@ + " "@ =~= "konform check --fix "@);
    }
}

/// A SARIF document has one run, with a result for each finding and an entry for each rule that was
/// broken.
pub proof fn law_sarif_documents_hold_all(f: Seq<FindingView>) -> (run: JsonView)
    ensures
        member_of(sarif_document(f), "runs"@) == Some(JsonView::List(seq![run])),
        member_of(run, "results"@) == Some(JsonView::List(finding_values(Shape::Sarif, f))),
        member_of(run, "tool"@) is Some,
        ({
            let driver = member_of(member_of(run, "tool"@)->0, "driver"@);
            let rules = member_of(driver->0, "rules"@);
            &&& driver is Some
            &&& member_of(driver->0, "name"@) == Some(JsonView::Text("konform"@))
            &&& rules is Some && rules->0 is List
            &&& rules->0->List_0.len() == rules_of(f).len()
            &&& forall|i: int|
                0 <= i < rules_of(f).len() ==> member_of(#[trigger] rules->0->List_0[i], "id"@)
                    == Some(JsonView::Text(rules_of(f)[i]))
        }),
{
    reveal_strlit("$schema");
    reveal_strlit("version");
    reveal_strlit("runs");
    reveal_strlit("tool");
    reveal_strlit("results");
    reveal_strlit("name");
    reveal_strlit("informationUri");
    reveal_strlit("rules");
    assert("$schema"@.len() == 7 && "version"@.len() == 7 && "runs"@.len() == 4);
    assert("tool"@.len() == 4 && "results"@.len() == 7);
    assert("name"@.len() == 4 && "informationUri"@.len() == 14 && "rules"@.len() == 5);
    reveal_with_fuel(field_in, 5);
    let d = sarif_document(f)->Object_0;
    assert(d[0].0 == "$schema"@ && d[1].0 == "version"@ && d[2].0 == "runs"@);
    assert(d.skip(1)[0] == d[1]);
    assert(d.skip(1).skip(1)[0] == d[2]);
    let run = d[2].1->List_0[0];
    let r = run->Object_0;
    assert(r[0].0 == "tool"@ && r[1].0 == "results"@);
    assert(r.skip(1)[0] == r[1]);
    let driver = r[0].1->Object_0[0].1->Object_0;
    assert(driver[0].0 == "name"@ && driver[1].0 == "version"@ && driver[2].0
        == "informationUri"@ && driver[3].0 == "rules"@);
    assert(driver.skip(1)[0] == driver[1]);
    assert(driver.skip(1).skip(1)[0] == driver[2]);
    assert(driver.skip(1).skip(1).skip(1)[0] == driver[3]);
    run
}

proof fn lemma_placed_behind_equals(s: Seq<(Seq<char>, nat)>, x: (Seq<char>, nat), n: nat)
    ensures
        ({
            let same = |e: (Seq<char>, nat)| e.1 == n;
            place_count(s, x).filter(same) == s.push(x).filter(same)
        }),
    decreases s.len(),
{
    let same = |e: (Seq<char>, nat)| e.1 == n;
    if s.len() > 0 && s.last().1 < x.1 {
        let rest = s.drop_last();
        lemma_placed_behind_equals(rest, x, n);
        lemma_filter_push(place_count(rest, x), s.last(), same);
        lemma_filter_push(rest, x, same);
        lemma_filter_push(rest, s.last(), same);
        lemma_filter_push(s, x, same);
        assert(s =~= rest.push(s.last()));
    }
}

/// Rules that were broken equally often are listed in the order in which they came.
pub proof fn law_equal_counts_stay_in_order(f: Seq<FindingView>, rules: Seq<Seq<char>>, n: nat)
    ensures
        ranked(f, rules).filter(|e: (Seq<char>, nat)| e.1 == n).map_values(
            |e: (Seq<char>, nat)| e.0,
        ) == rules.filter(|r: Seq<char>| count_of(f, r) == n),
    decreases rules.len(),
{
    let same = |e: (Seq<char>, nat)| e.1 == n;
    let name = |e: (Seq<char>, nat)| e.0;
    let often = |r: Seq<char>| count_of(f, r) == n;
    if rules.len() > 0 {
        let rest = rules.drop_last();
        law_equal_counts_stay_in_order(f, rest, n);
        let x = (rules.last(), count_of(f, rules.last()));
        let prior = ranked(f, rest);
        lemma_placed_behind_equals(prior, x, n);
        lemma_filter_push(prior, x, same);
        lemma_filter_push(rest, rules.last(), often);
        assert(rules =~= rest.push(rules.last()));
        assert(prior.filter(same).push(x).map_values(name) =~= prior.filter(same).map_values(
            name,
        ).push(x.0));
    } else {
        reveal(Seq::filter);
        assert(ranked(f, rules).filter(same).map_values(name) =~= rules.filter(often));
    }
}

/// Rules that were broken more often come first.
pub proof fn law_higher_counts_come_first(f: Seq<FindingView>, rules: Seq<Seq<char>>)
    ensures
        ranked(f, rules).len() == rules.len(),
        forall|i: int, j: int|
            0 <= i <= j < ranked(f, rules).len() ==> (#[trigger] ranked(f, rules)[i]).1 >= (
            #[trigger] ranked(f, rules)[j]).1,
    decreases rules.len(),
{
    if rules.len() > 0 {
        let rest = rules.drop_last();
        law_higher_counts_come_first(f, rest);
        lemma_falls(ranked(f, rest), (rules.last(), count_of(f, rules.last())));
    }
}

proof fn lemma_falls(s: Seq<(Seq<char>, nat)>, x: (Seq<char>, nat))
    requires
        forall|i: int, j: int| 0 <= i <= j < s.len() ==> (#[trigger] s[i]).1 >= (#[trigger] s[j]).1,
    ensures
        place_count(s, x).len() == s.len() + 1,
        forall|i: int, j: int|
            0 <= i <= j < place_count(s, x).len() ==> (#[trigger] place_count(s, x)[i]).1 >= (
            #[trigger] place_count(s, x)[j]).1,
    decreases s.len(),
{
    let r = place_count(s, x);
    if s.len() > 0 && s.last().1 < x.1 {
        let rest = s.drop_last();
        assert forall|i: int, j: int| 0 <= i <= j < rest.len() implies (#[trigger] rest[i]).1 >= (
        #[trigger] rest[j]).1 by {
            assert(s[i].1 >= s[j].1);
        }
        lemma_falls(rest, x);
        let q = place_count(rest, x);
        assert forall|i: int, j: int| 0 <= i <= j < r.len() implies (#[trigger] r[i]).1 >= (
        #[trigger] r[j]).1 by {
            if j == q.len() {
                if i < q.len() {
                    lemma_placed(rest, x, q[i]);
                    assert(q.contains(q[i]));
                    if rest.contains(q[i]) {
                        let k = choose|k: int| 0 <= k < rest.len() && rest[k] == q[i];
                        assert(s[k].1 >= s[s.len() - 1].1);
                    }
                }
            } else {
                assert(q[i].1 >= q[j].1);
            }
        }
    } else {
        assert forall|i: int, j: int| 0 <= i <= j < r.len() implies (#[trigger] r[i]).1 >= (
        #[trigger] r[j]).1 by {
            if j == s.len() {
                if i < s.len() {
                    assert(s[i].1 >= s[s.len() - 1].1);
                }
            } else {
                assert(s[i].1 >= s[j].1);
            }
        }
    }
}

} // verus!
