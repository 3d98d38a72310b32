//! Reports for machines: GitHub annotations, GitLab and SARIF documents, JUnit and JSON.
use crate::cache::{hash_bytes, hex, marked, push_marked, sea_hash, write_hex, VERSION};
use crate::json::{
    bool_or_null, fields, json_number, json_opt_bool, json_opt_number, json_opt_text, json_text,
    json_views, list, no_fields, no_values, number_or_null, object, put, put_value, text_or_null,
    Json, JsonView,
};
use crate::parse::{as_value, prettified, to_string_pretty};
use crate::ordered::{insert_text, with_text};
use crate::report::{
    collect_findings, file_views, finding_views, findings, strip_code, without_code, FileRecords,
    Finding, FindingView,
};
use crate::split::{decimal, number};
use crate::text::{chars, eq, part, string, strs};
use crate::types::{number_or, or_number, or_text, text_or, Record, RecordView};
use crate::xml::{escaped, xml_escape};
use vstd::bytes::*;
use vstd::prelude::*;
use vstd::string::*;

verus! {

// ---------------------------------------------------------------------------
// Lines of text
// ---------------------------------------------------------------------------

/// The line that machine formats give: 1 where there is none.
pub open spec fn line_shown(r: RecordView) -> u64 {
    or_number(r.line, 1)
}

/// A GitHub workflow command for a finding.
pub open spec fn github_line(f: FindingView) -> Seq<char> {
    let r = f.record;
    "::"@ + (if r.shown_level() == "warning"@ {
        "warning"@
    } else {
        "error"@
    }) + " file="@ + f.path + ",line="@ + decimal(line_shown(r) as nat) + ",col="@ + decimal(
        r.shown_column() as nat,
    ) + ",title="@ + r.shown_rule() + "::"@ + r.shown_message() + "\n"@
}

/// Text without the dots around it.
pub open spec fn without_dots(s: Seq<char>) -> Seq<char>
    decreases s.len(),
{
    if s.len() == 0 {
        s
    } else if s[0] == '.' {
        without_dots(s.skip(1))
    } else if s.last() == '.' {
        without_dots(s.drop_last())
    } else {
        s
    }
}

/// A path as the name of a class: dots between its parts, and none around it.
pub open spec fn class_name(path: Seq<char>) -> Seq<char> {
    without_dots(path.map_values(|c: char| if c == '/' { '.' } else { c }))
}

/// A JUnit test case for a finding.
pub open spec fn junit_case(f: FindingView) -> Seq<char> {
    let r = f.record;
    "    <testcase name=\""@ + f.path + ":"@ + decimal(line_shown(r) as nat) + ":"@ + decimal(
        r.shown_column() as nat,
    ) + "\" classname=\""@ + class_name(f.path) + "\">\n<failure message=\""@ + escaped(
        r.shown_message(),
    ) + "\" type=\""@ + r.shown_rule() + "\"/>\n</testcase>\n"@
}

/// GitHub workflow commands for several findings.
pub open spec fn github_lines(f: Seq<FindingView>) -> Seq<char>
    decreases f.len(),
{
    if f.len() == 0 {
        Seq::empty()
    } else {
        github_lines(f.drop_last()) + github_line(f.last())
    }
}

/// JUnit test cases for several findings.
pub open spec fn junit_cases(f: Seq<FindingView>) -> Seq<char>
    decreases f.len(),
{
    if f.len() == 0 {
        Seq::empty()
    } else {
        junit_cases(f.drop_last()) + junit_case(f.last())
    }
}

/// A JUnit report.
pub open spec fn junit_report(f: Seq<FindingView>) -> Seq<char> {
    "<?xml version=\"1.0\" encoding=\"UTF-8\"?>\n<testsuites>\n<testsuite name=\"konform\" tests=\""@
        + decimal(f.len()) + "\" failures=\""@ + decimal(f.len()) + "\" errors=\"0\">\n"@
        + junit_cases(f) + "</testsuite>\n</testsuites>\n"@
}

fn write_github_line(f: &Finding<'_>) -> (r: String)
    ensures
        r@ == github_line(f@),
{
    let mut out = "::".to_owned();
    if eq(f.record.read_level_name().as_str(), "warning") {
        out.append("warning");
    } else {
        out.append("error");
    }
    out.append(" file=");
    out.append(f.path);
    out.append(",line=");
    out.append(number(number_or(f.record.line, 1)).as_str());
    out.append(",col=");
    out.append(number(f.record.read_column()).as_str());
    out.append(",title=");
    out.append(f.record.read_rule().as_str());
    out.append("::");
    out.append(f.record.read_message().as_str());
    out.append("\n");
    out
}

/// A path as the name of a class.
fn write_class_name(path: &str) -> (r: String)
    ensures
        r@ == class_name(path@),
{
    let text = chars(path);
    let ghost dotted = path@.map_values(|c: char| if c == '/' { '.' } else { c });
    let mut out: Vec<char> = Vec::new();
    let mut i: usize = 0;
    while i < text.len()
        invariant
            i <= text@.len(),
            text@ == path@,
            dotted == path@.map_values(|c: char| if c == '/' { '.' } else { c }),
            out@ == dotted.take(i as int),
        decreases text@.len() - i,
    {
        out.push(if text[i] == '/' { '.' } else { text[i] });
        assert(out@ =~= dotted.take(i + 1));
        i += 1;
    }
    assert(out@ =~= dotted);
    let mut from: usize = 0;
    let mut to: usize = out.len();
    assert(dotted.subrange(0, dotted.len() as int) =~= dotted);
    while from < to && (out[from] == '.' || out[to - 1] == '.')
        invariant
            from <= to <= out@.len(),
            out@ == dotted,
            without_dots(dotted) == without_dots(dotted.subrange(from as int, to as int)),
        decreases to - from,
    {
        let ghost s = dotted.subrange(from as int, to as int);
        if out[from] == '.' {
            assert(s.skip(1) =~= dotted.subrange(from + 1, to as int));
            from += 1;
        } else {
            assert(s.drop_last() =~= dotted.subrange(from as int, to - 1));
            to -= 1;
        }
    }
    let ghost s = dotted.subrange(from as int, to as int);
    assert(without_dots(s) == s);
    string(part(out.as_slice(), from, to))
}

fn write_junit_case(f: &Finding<'_>) -> (r: String)
    ensures
        r@ == junit_case(f@),
{
    let mut out = "    <testcase name=\"".to_owned();
    out.append(f.path);
    out.append(":");
    out.append(number(number_or(f.record.line, 1)).as_str());
    out.append(":");
    out.append(number(f.record.read_column()).as_str());
    out.append("\" classname=\"");
    out.append(write_class_name(f.path).as_str());
    out.append("\">\n<failure message=\"");
    out.append(xml_escape(f.record.read_message().as_str()).as_str());
    out.append("\" type=\"");
    out.append(f.record.read_rule().as_str());
    out.append("\"/>\n</testcase>\n");
    out
}

/// Writes GitHub workflow commands, one line for each finding.
pub fn render_github(reported: &Vec<FileRecords>) -> (r: String)
    ensures
        r@ == github_lines(findings(file_views(reported@))),
{
    let found = collect_findings(reported);
    let ghost all = findings(file_views(reported@));
    let mut out = String::new();
    let mut i: usize = 0;
    assert(all.take(0) =~= Seq::empty());
    assert(out@ =~= github_lines(all.take(0)));
    assert(all.len() == found@.len());
    while i < found.len()
        invariant
            i <= found@.len(),
            finding_views(found@) == all,
            all.len() == found@.len(),
            out@ == github_lines(all.take(i as int)),
        decreases found@.len() - i,
    {
        assert(all.take(i + 1).drop_last() =~= all.take(i as int));
        assert(all.take(i + 1).last() == finding_views(found@)[i as int]);
        out.append(write_github_line(&found[i]).as_str());
        i += 1;
    }
    assert(all.take(all.len() as int) =~= all);
    out
}

/// Writes a JUnit report, one test case for each finding.
pub fn render_junit(reported: &Vec<FileRecords>) -> (r: String)
    ensures
        r@ == junit_report(findings(file_views(reported@))),
{
    let found = collect_findings(reported);
    let ghost all = findings(file_views(reported@));
    let mut cases = String::new();
    let mut i: usize = 0;
    assert(all.take(0) =~= Seq::empty());
    assert(cases@ =~= junit_cases(all.take(0)));
    assert(all.len() == found@.len());
    while i < found.len()
        invariant
            i <= found@.len(),
            finding_views(found@) == all,
            all.len() == found@.len(),
            cases@ == junit_cases(all.take(i as int)),
        decreases found@.len() - i,
    {
        assert(all.take(i + 1).drop_last() =~= all.take(i as int));
        assert(all.take(i + 1).last() == finding_views(found@)[i as int]);
        cases.append(write_junit_case(&found[i]).as_str());
        i += 1;
    }
    assert(all.take(all.len() as int) =~= all);
    let total = number(found.len() as u64);
    let mut out =
        "<?xml version=\"1.0\" encoding=\"UTF-8\"?>\n<testsuites>\n<testsuite name=\"konform\" tests=\"".to_owned();
    out.append(total.as_str());
    out.append("\" failures=\"");
    out.append(total.as_str());
    out.append("\" errors=\"0\">\n");
    out.append(cases.as_str());
    out.append("</testsuite>\n</testsuites>\n");
    out
}

// ---------------------------------------------------------------------------
// JSON documents
// ---------------------------------------------------------------------------

/// What a document gives for each finding.
#[derive(Clone, Copy, Debug, PartialEq, Eq, Structural)]
pub enum Shape {
    /// All fields, as they are shown on the screen.
    Screen,
    /// The fields that are written to a file.
    File,
    /// An entry of a GitLab code quality report.
    Gitlab,
    /// A result of a SARIF run.
    Sarif,
}

/// The bytes that identify a finding for GitLab: its path, rule and line.
pub open spec fn identity_bytes(f: FindingView) -> Seq<u8> {
    marked(f.path) + marked(f.record.shown_rule()) + spec_u64_to_le_bytes(line_shown(f.record))
}

/// The message without the code of its rule, which is empty where there is none.
pub open spec fn plain_message(r: RecordView) -> Seq<char> {
    without_code(or_text(r.message, ""@), or_text(r.rule, ""@))
}

/// The value for a finding.
pub open spec fn finding_value(shape: Shape, f: FindingView) -> JsonView {
    let r = f.record;
    let column = JsonView::Number(decimal(r.shown_column() as nat));
    match shape {
        Shape::Screen => JsonView::Object(
            seq![
                ("filename"@, JsonView::Text(f.path)),
                ("line"@, number_or_null(r.line)),
                ("col"@, column),
                ("end_line"@, number_or_null(r.end_line)),
                ("rule"@, text_or_null(r.rule)),
                ("message"@, JsonView::Text(plain_message(r))),
                ("level"@, text_or_null(r.level)),
                ("fixable"@, bool_or_null(r.fixable)),
            ],
        ),
        Shape::File => JsonView::Object(
            seq![
                ("filename"@, JsonView::Text(f.path)),
                ("line"@, number_or_null(r.line)),
                ("col"@, column),
                ("rule"@, JsonView::Text(or_text(r.rule, ""@))),
                ("message"@, JsonView::Text(plain_message(r))),
                ("level"@, text_or_null(r.level)),
                ("fixable"@, bool_or_null(r.fixable)),
            ],
        ),
        Shape::Gitlab => JsonView::Object(
            seq![
                ("description"@, JsonView::Text(r.shown_message())),
                ("fingerprint"@, JsonView::Text(hex(sea_hash(identity_bytes(f)) as nat, 16))),
                (
                    "severity"@,
                    JsonView::Text(
                        if r.shown_level() == "warning"@ {
                            "minor"@
                        } else {
                            "critical"@
                        },
                    ),
                ),
                (
                    "location"@,
                    JsonView::Object(
                        seq![
                            ("path"@, JsonView::Text(f.path)),
                            (
                                "lines"@,
                                JsonView::Object(
                                    seq![
                                        (
                                            "begin"@,
                                            JsonView::Number(decimal(line_shown(r) as nat)),
                                        ),
                                    ],
                                ),
                            ),
                        ],
                    ),
                ),
            ],
        ),
        Shape::Sarif => JsonView::Object(
            seq![
                ("ruleId"@, JsonView::Text(r.shown_rule())),
                ("level"@, JsonView::Text(r.shown_level())),
                (
                    "message"@,
                    JsonView::Object(seq![("text"@, JsonView::Text(r.shown_message()))]),
                ),
                ("locations"@, JsonView::List(seq![sarif_location(f)])),
            ],
        ),
    }
}

/// Where a finding stands, for SARIF.
pub open spec fn sarif_location(f: FindingView) -> JsonView {
    JsonView::Object(
        seq![
            (
                "physicalLocation"@,
                JsonView::Object(
                    seq![
                        (
                            "artifactLocation"@,
                            JsonView::Object(
                                seq![
                                    ("uri"@, JsonView::Text(f.path)),
                                    ("uriBaseId"@, JsonView::Text("%SRCROOT%"@)),
                                ],
                            ),
                        ),
                        (
                            "region"@,
                            JsonView::Object(
                                seq![
                                    (
                                        "startLine"@,
                                        JsonView::Number(decimal(line_shown(f.record) as nat)),
                                    ),
                                    (
                                        "startColumn"@,
                                        JsonView::Number(
                                            decimal(f.record.shown_column() as nat),
                                        ),
                                    ),
                                ],
                            ),
                        ),
                    ],
                ),
            ),
        ],
    )
}

/// The values for several findings.
pub open spec fn finding_values(shape: Shape, f: Seq<FindingView>) -> Seq<JsonView> {
    f.map_values(|x: FindingView| finding_value(shape, x))
}

/// An object with one field.
fn single(key: &str, value: Json) -> (r: Json)
    ensures
        r@ == JsonView::Object(seq![(key@, value@)]),
{
    let mut v = no_fields();
    put(&mut v, key, value);
    assert(fields(v@) =~= seq![(key@, value@)]);
    object(v)
}

/// An object with two fields.
fn double(key: &str, value: Json, key2: &str, value2: Json) -> (r: Json)
    ensures
        r@ == JsonView::Object(seq![(key@, value@), (key2@, value2@)]),
{
    let mut v = no_fields();
    put(&mut v, key, value);
    put(&mut v, key2, value2);
    assert(fields(v@) =~= seq![(key@, value@), (key2@, value2@)]);
    object(v)
}

fn identity_hash(f: &Finding<'_>) -> (r: u64)
    ensures
        r == sea_hash(identity_bytes(f@)),
{
    let mut bytes: Vec<u8> = Vec::new();
    push_marked(&mut bytes, f.path);
    push_marked(&mut bytes, f.record.read_rule().as_str());
    let mut line = u64_to_le_bytes(number_or(f.record.line, 1));
    bytes.append(&mut line);
    assert(bytes@ =~= identity_bytes(f@));
    hash_bytes(&bytes)
}

fn read_plain_message(r: &Record) -> (m: String)
    ensures
        m@ == plain_message(r@),
{
    strip_code(text_or(&r.message, "").as_str(), text_or(&r.rule, "").as_str())
}

fn screen_value(f: &Finding<'_>) -> (r: Json)
    ensures
        r@ == finding_value(Shape::Screen, f@),
{
    let mut v = no_fields();
    put(&mut v, "filename", json_text(f.path));
    put(&mut v, "line", json_opt_number(f.record.line));
    put(&mut v, "col", json_number(f.record.read_column()));
    put(&mut v, "end_line", json_opt_number(f.record.end_line));
    put(&mut v, "rule", json_opt_text(&f.record.rule));
    put(&mut v, "message", json_text(read_plain_message(f.record).as_str()));
    put(&mut v, "level", json_opt_text(&f.record.level));
    put(&mut v, "fixable", json_opt_bool(f.record.fixable));
    let r = object(v);
    assert(r@->Object_0 =~= finding_value(Shape::Screen, f@)->Object_0);
    r
}

fn file_value(f: &Finding<'_>) -> (r: Json)
    ensures
        r@ == finding_value(Shape::File, f@),
{
    let mut v = no_fields();
    put(&mut v, "filename", json_text(f.path));
    put(&mut v, "line", json_opt_number(f.record.line));
    put(&mut v, "col", json_number(f.record.read_column()));
    put(&mut v, "rule", json_text(text_or(&f.record.rule, "").as_str()));
    put(&mut v, "message", json_text(read_plain_message(f.record).as_str()));
    put(&mut v, "level", json_opt_text(&f.record.level));
    put(&mut v, "fixable", json_opt_bool(f.record.fixable));
    let r = object(v);
    assert(r@->Object_0 =~= finding_value(Shape::File, f@)->Object_0);
    r
}

fn gitlab_value(f: &Finding<'_>) -> (r: Json)
    ensures
        r@ == finding_value(Shape::Gitlab, f@),
{
    let severity = if eq(f.record.read_level_name().as_str(), "warning") {
        json_text("minor")
    } else {
        json_text("critical")
    };
    let lines = single("begin", json_number(number_or(f.record.line, 1)));
    let mut v = no_fields();
    put(&mut v, "description", json_text(f.record.read_message().as_str()));
    put(&mut v, "fingerprint", json_text(write_hex(identity_hash(f), 16).as_str()));
    put(&mut v, "severity", severity);
    put(&mut v, "location", double("path", json_text(f.path), "lines", lines));
    let r = object(v);
    assert(r@->Object_0 =~= finding_value(Shape::Gitlab, f@)->Object_0);
    r
}

fn sarif_value(f: &Finding<'_>) -> (r: Json)
    ensures
        r@ == finding_value(Shape::Sarif, f@),
{
    let artifact = double("uri", json_text(f.path), "uriBaseId", json_text("%SRCROOT%"));
    let region = double(
        "startLine",
        json_number(number_or(f.record.line, 1)),
        "startColumn",
        json_number(f.record.read_column()),
    );
    let place = single(
        "physicalLocation",
        double("artifactLocation", artifact, "region", region),
    );
    assert(place@ == sarif_location(f@));
    let mut places = no_values();
    put_value(&mut places, place);
    assert(json_views(places@) =~= seq![sarif_location(f@)]);
    let mut v = no_fields();
    put(&mut v, "ruleId", json_text(f.record.read_rule().as_str()));
    put(&mut v, "level", json_text(f.record.read_level_name().as_str()));
    put(&mut v, "message", single("text", json_text(f.record.read_message().as_str())));
    put(&mut v, "locations", list(places));
    let r = object(v);
    assert(r@->Object_0 =~= finding_value(Shape::Sarif, f@)->Object_0);
    r
}

fn value_for(shape: Shape, f: &Finding<'_>) -> (r: Json)
    ensures
        r@ == finding_value(shape, f@),
{
    match shape {
        Shape::Screen => screen_value(f),
        Shape::File => file_value(f),
        Shape::Gitlab => gitlab_value(f),
        Shape::Sarif => sarif_value(f),
    }
}

/// The values for all findings, in order.
pub fn values_for(shape: Shape, reported: &Vec<FileRecords>) -> (r: Vec<Json>)
    ensures
        json_views(r@) == finding_values(shape, findings(file_views(reported@))),
{
    let found = collect_findings(reported);
    let ghost all = findings(file_views(reported@));
    let ghost values = finding_values(shape, all);
    let mut out = no_values();
    let mut i: usize = 0;
    assert(json_views(out@) =~= values.take(0));
    assert(all.len() == found@.len());
    while i < found.len()
        invariant
            i <= found@.len(),
            finding_views(found@) == all,
            all.len() == found@.len(),
            values == finding_values(shape, all),
            json_views(out@) == values.take(i as int),
        decreases found@.len() - i,
    {
        assert(all[i as int] == finding_views(found@)[i as int]);
        put_value(&mut out, value_for(shape, &found[i]));
        assert(json_views(out@) =~= values.take(i + 1));
        i += 1;
    }
    assert(values.take(values.len() as int) =~= values);
    out
}

/// A document that lists the findings.
pub open spec fn list_document(shape: Shape, f: Seq<FindingView>) -> JsonView {
    JsonView::List(finding_values(shape, f))
}

/// Writes a document that lists the findings.
pub fn render_list(shape: Shape, reported: &Vec<FileRecords>) -> (r: String)
    ensures
        r@ == prettified(as_value(list_document(shape, findings(file_views(reported@))))),
{
    to_string_pretty(&list(values_for(shape, reported)))
}

/// Writes a GitLab code quality report.
pub fn render_gitlab(reported: &Vec<FileRecords>) -> (r: String)
    ensures
        r@ == prettified(
            as_value(list_document(Shape::Gitlab, findings(file_views(reported@)))),
        ),
{
    render_list(Shape::Gitlab, reported)
}

/// The rules of several findings, in order and each once.
pub open spec fn rules_of(f: Seq<FindingView>) -> Seq<Seq<char>>
    decreases f.len(),
{
    if f.len() == 0 {
        Seq::empty()
    } else {
        with_text(rules_of(f.drop_last()), f.last().record.shown_rule())
    }
}

/// The rules of all findings, in order and each once.
pub fn collect_rules(found: &Vec<Finding<'_>>) -> (r: Vec<String>)
    ensures
        strs(r@) == rules_of(finding_views(found@)),
{
    let ghost all = finding_views(found@);
    let mut out: Vec<String> = Vec::new();
    let mut i: usize = 0;
    assert(strs(out@) =~= Seq::empty());
    assert(all.take(0) =~= Seq::empty());
    while i < found.len()
        invariant
            i <= found@.len(),
            all == finding_views(found@),
            strs(out@) == rules_of(all.take(i as int)),
        decreases found@.len() - i,
    {
        assert(all.take(i + 1).drop_last() =~= all.take(i as int));
        assert(all.take(i + 1).last() == found@[i as int]@);
        insert_text(&mut out, found[i].record.read_rule());
        i += 1;
    }
    assert(all.take(all.len() as int) =~= all);
    out
}

/// What SARIF says of a rule.
pub open spec fn sarif_rule(id: Seq<char>) -> JsonView {
    JsonView::Object(
        seq![
            ("id"@, JsonView::Text(id)),
            (
                "shortDescription"@,
                JsonView::Object(seq![("text"@, JsonView::Text("konform "@ + id))]),
            ),
            ("helpUri"@, JsonView::Text("https://github.com/bziegler/konform#rules"@)),
        ],
    )
}

/// A SARIF document.
pub open spec fn sarif_document(f: Seq<FindingView>) -> JsonView {
    let driver = JsonView::Object(
        seq![
            ("name"@, JsonView::Text("konform"@)),
            ("version"@, JsonView::Text(VERSION@)),
            ("informationUri"@, JsonView::Text("https://github.com/bziegler/konform"@)),
            (
                "rules"@,
                JsonView::List(rules_of(f).map_values(|id: Seq<char>| sarif_rule(id))),
            ),
        ],
    );
    let run = JsonView::Object(
        seq![
            ("tool"@, JsonView::Object(seq![("driver"@, driver)])),
            ("results"@, JsonView::List(finding_values(Shape::Sarif, f))),
        ],
    );
    JsonView::Object(
        seq![
            ("$schema"@, JsonView::Text("https://json.schemastore.org/sarif-2.1.0"@)),
            ("version"@, JsonView::Text("2.1.0"@)),
            ("runs"@, JsonView::List(seq![run])),
        ],
    )
}

fn sarif_rule_value(id: &str) -> (r: Json)
    ensures
        r@ == sarif_rule(id@),
{
    let mut about = "konform ".to_owned();
    about.append(id);
    let mut v = no_fields();
    put(&mut v, "id", json_text(id));
    put(&mut v, "shortDescription", single("text", json_text(about.as_str())));
    put(&mut v, "helpUri", json_text("https://github.com/bziegler/konform#rules"));
    let r = object(v);
    assert(r@->Object_0 =~= sarif_rule(id@)->Object_0);
    r
}

fn sarif_rules(reported: &Vec<FileRecords>) -> (r: Json)
    ensures
        r@ == JsonView::List(
            rules_of(findings(file_views(reported@))).map_values(|id: Seq<char>| sarif_rule(id)),
        ),
{
    let found = collect_findings(reported);
    let rules = collect_rules(&found);
    let ghost ids = rules_of(findings(file_views(reported@)));
    let ghost values = ids.map_values(|id: Seq<char>| sarif_rule(id));
    let mut out = no_values();
    let mut i: usize = 0;
    assert(json_views(out@) =~= values.take(0));
    assert(ids.len() == rules@.len());
    while i < rules.len()
        invariant
            i <= rules@.len(),
            strs(rules@) == ids,
            ids.len() == rules@.len(),
            values == ids.map_values(|id: Seq<char>| sarif_rule(id)),
            json_views(out@) == values.take(i as int),
        decreases rules@.len() - i,
    {
        assert(ids[i as int] == strs(rules@)[i as int]);
        put_value(&mut out, sarif_rule_value(rules[i].as_str()));
        assert(json_views(out@) =~= values.take(i + 1));
        i += 1;
    }
    assert(values.take(values.len() as int) =~= values);
    list(out)
}

/// The value of a SARIF document.
pub fn sarif_report(reported: &Vec<FileRecords>) -> (r: Json)
    ensures
        r@ == sarif_document(findings(file_views(reported@))),
{
    let ghost f = findings(file_views(reported@));
    let mut driver = no_fields();
    put(&mut driver, "name", json_text("konform"));
    put(&mut driver, "version", json_text(VERSION));
    put(&mut driver, "informationUri", json_text("https://github.com/bziegler/konform"));
    put(&mut driver, "rules", sarif_rules(reported));
    let driver = object(driver);
    assert(driver@->Object_0 =~= seq![
        ("name"@, JsonView::Text("konform"@)),
        ("version"@, JsonView::Text(VERSION@)),
        ("informationUri"@, JsonView::Text("https://github.com/bziegler/konform"@)),
        ("rules"@, JsonView::List(rules_of(f).map_values(|id: Seq<char>| sarif_rule(id)))),
    ]);
    let run = double(
        "tool",
        single("driver", driver),
        "results",
        list(values_for(Shape::Sarif, reported)),
    );
    let mut runs = no_values();
    put_value(&mut runs, run);
    assert(json_views(runs@) =~= seq![run@]);
    let mut v = no_fields();
    put(&mut v, "$schema", json_text("https://json.schemastore.org/sarif-2.1.0"));
    put(&mut v, "version", json_text("2.1.0"));
    put(&mut v, "runs", list(runs));
    let r = object(v);
    assert(r@->Object_0 =~= sarif_document(f)->Object_0);
    r
}

/// Writes a SARIF document.
pub fn render_sarif(reported: &Vec<FileRecords>) -> (r: String)
    ensures
        r@ == prettified(as_value(sarif_document(findings(file_views(reported@))))),
{
    to_string_pretty(&sarif_report(reported))
}

} // verus!
