//! What a language client is told of violations, and the fixes that it is offered.
use crate::config::Config;
use crate::engine::{all_passes, run_fix, CheckInput, ModeView, MAX_FIX_PASSES};
use crate::lsp_diff::{
    edited, full_lines, law_edits_give_the_new_text, line_diff_edits, line_edits, text_edit_views,
    TextEditView,
};
use crate::lsp_position::{
    client_column, end_position, find_client_column, full_document_edit, Position, Range, TextEdit,
};
use crate::rules::Rule;
use crate::split::{split, split_spec};
use crate::text::{byte_len, chars, eq, str_starts_with, strs};
use crate::types::{
    or_text, text_or, violation_views, FixTarget, Level, TargetView, Violation, ViolationView,
};
use vstd::prelude::*;
use vstd::string::*;

verus! {

// ---------------------------------------------------------------------------
// Diagnostics
// ---------------------------------------------------------------------------

/// What is kept with a diagnostic that can be fixed.
pub struct FixData {
    pub code: String,
    pub help: String,
}

/// What a client is told of a violation.
pub struct Diagnostic {
    pub range: Range,
    pub severity: Level,
    pub code: String,
    pub message: String,
    /// There where the violation can be fixed.
    pub data: Option<FixData>,
}

/// What a [`Diagnostic`] says.
#[verifier::ext_equal]
pub struct DiagnosticView {
    pub range: Range,
    pub severity: Level,
    pub code: Seq<char>,
    pub message: Seq<char>,
    pub data: Option<(Seq<char>, Seq<char>)>,
}

impl View for Diagnostic {
    type V = DiagnosticView;

    open spec fn view(&self) -> DiagnosticView {
        DiagnosticView {
            range: self.range,
            severity: self.severity,
            code: self.code@,
            message: self.message@,
            data: match self.data {
                Some(d) => Some((d.code@, d.help@)),
                None => None,
            },
        }
    }
}

/// What several diagnostics say.
pub open spec fn diagnostic_views(v: Seq<Diagnostic>) -> Seq<DiagnosticView> {
    v.map_values(|d: Diagnostic| d@)
}

/// A 1-based number counted from 0.
pub open spec fn from_zero(n: int) -> u32 {
    (if n > 0 {
        n - 1
    } else {
        0
    }) as u32
}

/// What a client is told of a violation in a source: lines count from 0, columns count UTF-16 code
/// units, and a help text stands below the message.
pub open spec fn diagnostic_of(v: ViolationView, source: Seq<char>) -> DiagnosticView {
    let help = or_text(v.help, ""@);
    DiagnosticView {
        range: Range {
            start: Position {
                line: from_zero(v.line),
                character: client_column(source, v.line, v.col),
            },
            end: Position {
                line: from_zero(v.end_line),
                character: client_column(source, v.end_line, v.end_col),
            },
        },
        severity: v.level,
        code: v.rule,
        message: if help.len() == 0 {
            v.message
        } else {
            v.message + "\n"@ + help
        },
        data: if v.fixable {
            Some((v.rule, help))
        } else {
            None
        },
    }
}

fn count_from_zero(n: usize) -> (r: u32)
    ensures
        r == from_zero(n as int),
{
    let k: usize = if n > 0 {
        n - 1
    } else {
        0
    };
    k as u32
}

/// What a client is told of a violation in a source.
pub fn violation_to_diagnostic(v: &Violation, source: &str) -> (r: Diagnostic)
    ensures
        r@ == diagnostic_of(v@, source@),
{
    let text = chars(source);
    let lines = split(text.as_slice(), '\n');
    describe_in(v, &lines, Ghost(source@))
}

/// What a client is told of a violation in a source that was split at its newlines.
fn describe_in(v: &Violation, lines: &Vec<String>, Ghost(source): Ghost<Seq<char>>) -> (r: Diagnostic)
    requires
        strs(lines@) == split_spec(source, '\n'),
    ensures
        r@ == diagnostic_of(v@, source),
{
    let help = text_or(&v.help, "");
    let mut message = v.message.clone();
    if !help.as_str().is_empty() {
        message.append("\n");
        message.append(help.as_str());
    }
    Diagnostic {
        range: Range {
            start: Position {
                line: count_from_zero(v.line),
                character: find_client_column(lines, v.line, v.col),
            },
            end: Position {
                line: count_from_zero(v.end_line),
                character: find_client_column(lines, v.end_line, v.end_col),
            },
        },
        severity: v.level,
        code: v.rule.clone(),
        message,
        data: if v.fixable {
            Some(FixData { code: v.rule.clone(), help })
        } else {
            None
        },
    }
}

/// What a client is told of several violations in a source.
pub fn to_diagnostics(violations: &Vec<Violation>, source: &str) -> (r: Vec<Diagnostic>)
    ensures
        diagnostic_views(r@) == violation_views(violations@).map_values(
            |v: ViolationView| diagnostic_of(v, source@),
        ),
{
    let text = chars(source);
    let lines = split(text.as_slice(), '\n');
    let ghost all = violation_views(violations@).map_values(
        |v: ViolationView| diagnostic_of(v, source@),
    );
    let mut out: Vec<Diagnostic> = Vec::new();
    let mut i: usize = 0;
    assert(diagnostic_views(out@) =~= all.take(0));
    while i < violations.len()
        invariant
            i <= violations@.len(),
            strs(lines@) == split_spec(source@, '\n'),
            all == violation_views(violations@).map_values(
                |v: ViolationView| diagnostic_of(v, source@),
            ),
            diagnostic_views(out@) == all.take(i as int),
        decreases violations@.len() - i,
    {
        let d = describe_in(&violations[i], &lines, Ghost(source@));
        assert(violation_views(violations@)[i as int] == violations@[i as int]@);
        let ghost before = out@;
        out.push(d);
        assert(diagnostic_views(out@) =~= diagnostic_views(before).push(d@));
        assert(all.take(i + 1) =~= all.take(i as int).push(d@));
        i += 1;
    }
    assert(all.take(all.len() as int) =~= all);
    out
}

// ---------------------------------------------------------------------------
// Code actions
// ---------------------------------------------------------------------------

/// What an offered fix is for.
#[derive(Clone, Copy, Debug, PartialEq, Eq, Structural)]
pub enum ActionKind {
    /// One violation.
    QuickFix,
    /// All that can be fixed.
    FixAll,
}

impl ActionKind {
    /// The name of the kind.
    pub open spec fn label(self) -> Seq<char> {
        match self {
            ActionKind::QuickFix => "quickfix"@,
            ActionKind::FixAll => "source.fixAll.konform"@,
        }
    }

    /// The name of the kind.
    pub fn name(self) -> (r: String)
        ensures
            r@ == self.label(),
    {
        match self {
            ActionKind::QuickFix => "quickfix".to_owned(),
            ActionKind::FixAll => "source.fixAll.konform".to_owned(),
        }
    }
}

/// Whether a kind is the wanted one or lies below it.
pub open spec fn kind_fits(kind: Seq<char>, wanted: Seq<char>) -> bool {
    kind == wanted || (wanted + "."@).is_prefix_of(kind)
}

/// Whether a kind is one of several or lies below one.
pub open spec fn fits_any(kind: Seq<char>, kinds: Seq<Seq<char>>) -> bool {
    exists|i: int| 0 <= i < kinds.len() && kind_fits(kind, #[trigger] kinds[i])
}

/// Whether a kind is wanted: every kind is where the client names none.
pub open spec fn kind_wanted(only: Option<Seq<Seq<char>>>, kind: Seq<char>) -> bool {
    match only {
        Some(kinds) => fits_any(kind, kinds),
        None => true,
    }
}

/// The kinds that a client names.
pub open spec fn only_view(only: Option<Vec<String>>) -> Option<Seq<Seq<char>>> {
    match only {
        Some(kinds) => Some(strs(kinds@)),
        None => None,
    }
}

/// Whether a kind is wanted.
pub fn is_kind_wanted(only: &Option<Vec<String>>, kind: &str) -> (r: bool)
    ensures
        r == kind_wanted(only_view(*only), kind@),
{
    let kinds = match only {
        Some(kinds) => kinds,
        None => return true,
    };
    let mut i: usize = 0;
    while i < kinds.len()
        invariant
            i <= kinds@.len(),
            only_view(*only) == Some(strs(kinds@)),
            forall|j: int| 0 <= j < i ==> !kind_fits(kind@, #[trigger] strs(kinds@)[j]),
        decreases kinds@.len() - i,
    {
        assert(strs(kinds@)[i as int] == kinds@[i as int]@);
        let mut above = kinds[i].clone();
        above.append(".");
        if eq(kind, kinds[i].as_str()) || str_starts_with(kind, above.as_str()) {
            assert(fits_any(kind@, strs(kinds@)));
            return true;
        }
        i += 1;
    }
    false
}

/// A fix that a client is offered.
pub struct CodeAction {
    pub title: String,
    pub kind: ActionKind,
    /// What the fix is for.
    pub diagnostics: Vec<Diagnostic>,
    pub edits: Vec<TextEdit>,
    pub preferred: bool,
}

/// What a [`CodeAction`] says.
#[verifier::ext_equal]
pub struct ActionView {
    pub title: Seq<char>,
    pub kind: ActionKind,
    pub diagnostics: Seq<DiagnosticView>,
    pub edits: Seq<TextEditView>,
    pub preferred: bool,
}

impl View for CodeAction {
    type V = ActionView;

    open spec fn view(&self) -> ActionView {
        ActionView {
            title: self.title@,
            kind: self.kind,
            diagnostics: diagnostic_views(self.diagnostics@),
            edits: text_edit_views(self.edits@),
            preferred: self.preferred,
        }
    }
}

/// What several offers say.
pub open spec fn action_views(v: Seq<CodeAction>) -> Seq<ActionView> {
    v.map_values(|a: CodeAction| a@)
}

/// The name of the rule with a code: that of the first rule with it, or else of the first whose
/// category the code belongs to, or else the code itself.
pub open spec fn name_for<R: Rule>(rules: Seq<R>, code: Seq<char>) -> Seq<char> {
    match first_with_code(rules, code) {
        Some(i) => rules[i].name_of(),
        None => match first_in_category(rules, code) {
            Some(i) => rules[i].name_of(),
            None => code,
        },
    }
}

/// The first rule with a code.
pub open spec fn first_with_code<R: Rule>(rules: Seq<R>, code: Seq<char>) -> Option<int>
    decreases rules.len(),
{
    if rules.len() == 0 {
        None
    } else {
        match first_with_code(rules.drop_last(), code) {
            Some(i) => Some(i),
            None => if rules.last().code_of() == code {
                Some(rules.len() - 1)
            } else {
                None
            },
        }
    }
}

/// The first rule whose category a code belongs to.
pub open spec fn first_in_category<R: Rule>(rules: Seq<R>, code: Seq<char>) -> Option<int>
    decreases rules.len(),
{
    if rules.len() == 0 {
        None
    } else {
        match first_in_category(rules.drop_last(), code) {
            Some(i) => Some(i),
            None => if rules.last().category_of().is_prefix_of(code) {
                Some(rules.len() - 1)
            } else {
                None
            },
        }
    }
}

proof fn lemma_first_stays<R: Rule>(rules: Seq<R>, code: Seq<char>, n: int)
    requires
        0 <= n <= rules.len(),
    ensures
        first_with_code(rules.take(n), code) is Some ==> first_with_code(rules, code)
            == first_with_code(rules.take(n), code),
        first_in_category(rules.take(n), code) is Some ==> first_in_category(rules, code)
            == first_in_category(rules.take(n), code),
    decreases rules.len() - n,
{
    if n == rules.len() {
        assert(rules.take(n) =~= rules);
    } else {
        lemma_first_stays(rules, code, n + 1);
        assert(rules.take(n + 1).drop_last() =~= rules.take(n));
    }
}

/// The name of the rule with a code.
pub fn rule_name<R: Rule>(rules: &Vec<R>, code: &str) -> (r: String)
    ensures
        r@ == name_for(rules@, code@),
{
    let mut i: usize = 0;
    assert(rules@.take(0) =~= Seq::empty());
    while i < rules.len()
        invariant
            i <= rules@.len(),
            first_with_code(rules@.take(i as int), code@) is None,
        decreases rules@.len() - i,
    {
        assert(rules@.take(i + 1).drop_last() =~= rules@.take(i as int));
        assert(rules@.take(i + 1).last() == rules@[i as int]);
        if eq(rules[i].code().as_str(), code) {
            proof {
                lemma_first_stays(rules@, code@, i + 1);
            }
            return rules[i].name();
        }
        i += 1;
    }
    assert(rules@.take(rules@.len() as int) =~= rules@);
    let mut k: usize = 0;
    while k < rules.len()
        invariant
            k <= rules@.len(),
            first_with_code(rules@, code@) is None,
            first_in_category(rules@.take(k as int), code@) is None,
        decreases rules@.len() - k,
    {
        assert(rules@.take(k + 1).drop_last() =~= rules@.take(k as int));
        assert(rules@.take(k + 1).last() == rules@[k as int]);
        if str_starts_with(code, rules[k].category().as_str()) {
            proof {
                lemma_first_stays(rules@, code@, k + 1);
            }
            return rules[k].name();
        }
        k += 1;
    }
    assert(rules@.take(rules@.len() as int) =~= rules@);
    code.to_owned()
}

/// What fixing makes of a document; `None` where nothing changes or a rule fails.
pub open spec fn document_fixed<R: Rule>(
    rules: Seq<R>,
    path: Seq<char>,
    config: Config,
    source: Seq<char>,
    target: Option<TargetView>,
) -> Option<Seq<char>> {
    let end = all_passes(
        rules,
        path,
        ModeView { ignore_noqa: false, target },
        config,
        source,
        if target is Some {
            1
        } else {
            MAX_FIX_PASSES as nat
        },
    );
    if end.error is None && end.changed {
        Some(end.text)
    } else {
        None
    }
}

/// The edits that fix one violation and nothing else; `None` where there are none.
pub open spec fn violation_edits<R: Rule>(
    rules: Seq<R>,
    path: Seq<char>,
    config: Config,
    source: Seq<char>,
    v: ViolationView,
) -> Option<Seq<TextEditView>> {
    match document_fixed(
        rules,
        path,
        config,
        source,
        Some(TargetView { rule: v.rule, line: v.line, col: v.col }),
    ) {
        Some(fixed) => if line_edits(source, fixed).len() == 0 {
            None
        } else {
            Some(line_edits(source, fixed))
        },
        None => None,
    }
}

/// The edits that fix one violation and nothing else.
pub fn violation_fix_edit<R: Rule>(
    path: &str,
    source: &str,
    violation: &Violation,
    rules: &Vec<R>,
    config: &Config,
) -> (r: Option<Vec<TextEdit>>)
    ensures
        match r {
            Some(edits) => violation_edits(rules@, path@, *config, source@, violation@) == Some(
                text_edit_views(edits@),
            ),
            None => violation_edits(rules@, path@, *config, source@, violation@) is None,
        },
{
    let mut input = CheckInput::new(path, source);
    input.fix_target = Some(
        FixTarget { rule: violation.rule.clone(), line: violation.line, col: violation.col },
    );
    let mut notes: Vec<String> = Vec::new();
    let fixed = match run_fix(&input, rules, config, &mut notes) {
        Ok(Some(fixed)) => fixed,
        _ => return None,
    };
    let edits = line_diff_edits(source, fixed.as_str());
    assert(text_edit_views(edits@).len() == edits@.len());
    if edits.len() == 0 {
        None
    } else {
        Some(edits)
    }
}

/// Whether a violation lies on the lines that a client asks about.
pub open spec fn in_range(v: ViolationView, range: Range) -> bool {
    range.start.line <= from_zero(v.line) <= range.end.line
}

/// The offer to fix one violation.
pub open spec fn quick_fix<R: Rule>(
    rules: Seq<R>,
    path: Seq<char>,
    config: Config,
    source: Seq<char>,
    range: Range,
    v: ViolationView,
) -> Option<ActionView> {
    if !v.fixable || !in_range(v, range) {
        None
    } else {
        match violation_edits(rules, path, config, source, v) {
            Some(edits) => Some(
                ActionView {
                    title: "Konform: Fix "@ + name_for(rules, v.rule) + " ["@ + v.rule + "]"@,
                    kind: ActionKind::QuickFix,
                    diagnostics: seq![diagnostic_of(v, source)],
                    edits,
                    preferred: true,
                },
            ),
            None => None,
        }
    }
}

/// The offers to fix each of the first `n` violations.
pub open spec fn quick_fixes<R: Rule>(
    rules: Seq<R>,
    path: Seq<char>,
    config: Config,
    source: Seq<char>,
    range: Range,
    violations: Seq<ViolationView>,
    n: int,
) -> Seq<ActionView>
    decreases n,
{
    if n <= 0 {
        Seq::empty()
    } else {
        let before = quick_fixes(rules, path, config, source, range, violations, n - 1);
        match quick_fix(rules, path, config, source, range, violations[n - 1]) {
            Some(action) => before.push(action),
            None => before,
        }
    }
}

/// The edit that replaces a document.
pub open spec fn whole_edit(source: Seq<char>, fixed: Seq<char>) -> TextEditView {
    TextEditView {
        range: Range { start: Position { line: 0, character: 0 }, end: end_position(source) },
        new_text: fixed,
    }
}

/// The offer to fix all that can be fixed.
pub open spec fn fix_all<R: Rule>(
    rules: Seq<R>,
    path: Seq<char>,
    config: Config,
    source: Seq<char>,
) -> Seq<ActionView> {
    match document_fixed(rules, path, config, source, None) {
        Some(fixed) => seq![
            ActionView {
                title: "Konform: Fix all auto-fixable problems"@,
                kind: ActionKind::FixAll,
                diagnostics: Seq::empty(),
                edits: seq![whole_edit(source, fixed)],
                preferred: false,
            },
        ],
        None => Seq::empty(),
    }
}

/// What a client asks for.
pub struct ActionRequest<'a> {
    pub path: &'a str,
    pub source: &'a str,
    pub range: Range,
    /// The kinds that are wanted; `None` for all.
    pub only: &'a Option<Vec<String>>,
}

/// All that a client is offered: first the fixes for single violations, then the one for all.
pub open spec fn offers<R: Rule>(
    request: ActionRequest<'_>,
    violations: Seq<ViolationView>,
    rules: Seq<R>,
    config: Config,
) -> Seq<ActionView> {
    let only = only_view(*request.only);
    let quick = if kind_wanted(only, "quickfix"@) {
        quick_fixes(
            rules,
            request.path@,
            config,
            request.source@,
            request.range,
            violations,
            violations.len() as int,
        )
    } else {
        Seq::empty()
    };
    let all = if kind_wanted(only, "source.fixAll.konform"@) {
        fix_all(rules, request.path@, config, request.source@)
    } else {
        Seq::empty()
    };
    quick + all
}

fn offer_quick_fix<R: Rule>(
    request: &ActionRequest<'_>,
    violation: &Violation,
    rules: &Vec<R>,
    config: &Config,
) -> (r: Option<CodeAction>)
    ensures
        match r {
            Some(action) => quick_fix(
                rules@,
                request.path@,
                *config,
                request.source@,
                request.range,
                violation@,
            ) == Some(action@),
            None => quick_fix(
                rules@,
                request.path@,
                *config,
                request.source@,
                request.range,
                violation@,
            ) is None,
        },
{
    if !violation.fixable {
        return None;
    }
    let line: u32 = count_from_zero(violation.line);
    if line < request.range.start.line || line > request.range.end.line {
        return None;
    }
    let edits = match violation_fix_edit(
        request.path,
        request.source,
        violation,
        rules,
        config,
    ) {
        Some(edits) => edits,
        None => return None,
    };
    let mut title = "Konform: Fix ".to_owned();
    title.append(rule_name(rules, violation.rule.as_str()).as_str());
    title.append(" [");
    title.append(violation.rule.as_str());
    title.append("]");
    let mut diagnostics: Vec<Diagnostic> = Vec::new();
    let d = violation_to_diagnostic(violation, request.source);
    diagnostics.push(d);
    assert(diagnostic_views(diagnostics@) =~= seq![diagnostic_of(violation@, request.source@)]);
    Some(CodeAction { title, kind: ActionKind::QuickFix, diagnostics, edits, preferred: true })
}

/// All that a client is offered.
pub fn handle_code_action<R: Rule>(
    request: &ActionRequest<'_>,
    violations: &Vec<Violation>,
    rules: &Vec<R>,
    config: &Config,
) -> (r: Vec<CodeAction>)
    requires
        byte_len(request.source@) <= usize::MAX,
    ensures
        action_views(r@) == offers(*request, violation_views(violations@), rules@, *config),
{
    let ghost all = violation_views(violations@);
    let mut out: Vec<CodeAction> = Vec::new();
    assert(action_views(out@) =~= Seq::empty());
    if is_kind_wanted(request.only, "quickfix") {
        let mut i: usize = 0;
        while i < violations.len()
            invariant
                i <= violations@.len(),
                all == violation_views(violations@),
                action_views(out@) == quick_fixes(
                    rules@,
                    request.path@,
                    *config,
                    request.source@,
                    request.range,
                    all,
                    i as int,
                ),
            decreases violations@.len() - i,
        {
            assert(all[i as int] == violations@[i as int]@);
            match offer_quick_fix(request, &violations[i], rules, config) {
                Some(action) => {
                    let ghost before = out@;
                    out.push(action);
                    assert(action_views(out@) =~= action_views(before).push(action@));
                },
                None => {},
            }
            i += 1;
        }
    }
    let ghost quick = action_views(out@);
    if is_kind_wanted(request.only, "source.fixAll.konform") {
        let input = CheckInput::new(request.path, request.source);
        let mut notes: Vec<String> = Vec::new();
        match run_fix(&input, rules, config, &mut notes) {
            Ok(Some(fixed)) => {
                let edit = full_document_edit(request.source, fixed.as_str());
                assert(edit@ =~= whole_edit(request.source@, fixed@));
                let mut edits: Vec<TextEdit> = Vec::new();
                edits.push(edit);
                assert(text_edit_views(edits@) =~= seq![whole_edit(request.source@, fixed@)]);
                let diagnostics: Vec<Diagnostic> = Vec::new();
                assert(diagnostic_views(diagnostics@) =~= Seq::empty());
                let action = CodeAction {
                    title: "Konform: Fix all auto-fixable problems".to_owned(),
                    kind: ActionKind::FixAll,
                    diagnostics,
                    edits,
                    preferred: false,
                };
                let ghost before = out@;
                out.push(action);
                assert(action_views(out@) =~= action_views(before).push(action@));
                assert(quick.push(action@) =~= quick + fix_all(
                    rules@,
                    request.path@,
                    *config,
                    request.source@,
                ));
            },
            _ => {
                assert(quick + Seq::<ActionView>::empty() =~= quick);
            },
        }
    } else {
        assert(quick + Seq::<ActionView>::empty() =~= quick);
    }
    out
}

/// The edits that format a document: one that replaces it, or none where nothing changes.
pub fn handle_formatting<R: Rule>(
    path: &str,
    source: &str,
    rules: &Vec<R>,
    config: &Config,
) -> (r: Vec<TextEdit>)
    requires
        byte_len(source@) <= usize::MAX,
    ensures
        text_edit_views(r@) == match document_fixed(rules@, path@, *config, source@, None) {
            Some(fixed) => seq![whole_edit(source@, fixed)],
            None => Seq::empty(),
        },
{
    let mut out: Vec<TextEdit> = Vec::new();
    assert(text_edit_views(out@) =~= Seq::empty());
    let input = CheckInput::new(path, source);
    let mut notes: Vec<String> = Vec::new();
    match run_fix(&input, rules, config, &mut notes) {
        Ok(Some(fixed)) => {
            let edit = full_document_edit(source, fixed.as_str());
            assert(edit@ =~= whole_edit(source@, fixed@));
            out.push(edit);
            assert(text_edit_views(out@) =~= seq![whole_edit(source@, fixed@)]);
        },
        _ => {},
    }
    out
}

// ---------------------------------------------------------------------------
// Messages
// ---------------------------------------------------------------------------

/// What a client requests.
#[derive(Clone, Copy, Debug, PartialEq, Eq, Structural)]
pub enum RequestKind {
    Diagnostic,
    CodeAction,
    Formatting,
    RangeFormatting,
    /// Something that is not offered.
    Unknown,
}

/// What a client requests, by the name of the method.
pub fn classify_request(method: &str) -> (r: RequestKind)
    ensures
        r == if method@ == "textDocument/diagnostic"@ {
            RequestKind::Diagnostic
        } else if method@ == "textDocument/codeAction"@ {
            RequestKind::CodeAction
        } else if method@ == "textDocument/formatting"@ {
            RequestKind::Formatting
        } else if method@ == "textDocument/rangeFormatting"@ {
            RequestKind::RangeFormatting
        } else {
            RequestKind::Unknown
        },
{
    if eq(method, "textDocument/diagnostic") {
        RequestKind::Diagnostic
    } else if eq(method, "textDocument/codeAction") {
        RequestKind::CodeAction
    } else if eq(method, "textDocument/formatting") {
        RequestKind::Formatting
    } else if eq(method, "textDocument/rangeFormatting") {
        RequestKind::RangeFormatting
    } else {
        RequestKind::Unknown
    }
}

/// What the error for a request that is not offered says.
pub fn method_not_found(method: &str) -> (r: String)
    ensures
        r@ == "method not found: "@ + method@,
{
    let mut out = "method not found: ".to_owned();
    out.append(method);
    out
}

/// What a client reports.
#[derive(Clone, Copy, Debug, PartialEq, Eq, Structural)]
pub enum NotificationKind {
    Initialized,
    DidOpen,
    DidChange,
    DidClose,
    DidSave,
    WatchedFilesChanged,
    ConfigurationChanged,
    /// Something that does not matter.
    Unknown,
}

/// What a client reports, by the name of the method.
pub fn classify_notification(method: &str) -> (r: NotificationKind)
    ensures
        r == if method@ == "initialized"@ {
            NotificationKind::Initialized
        } else if method@ == "textDocument/didOpen"@ {
            NotificationKind::DidOpen
        } else if method@ == "textDocument/didChange"@ {
            NotificationKind::DidChange
        } else if method@ == "textDocument/didClose"@ {
            NotificationKind::DidClose
        } else if method@ == "textDocument/didSave"@ {
            NotificationKind::DidSave
        } else if method@ == "workspace/didChangeWatchedFiles"@ {
            NotificationKind::WatchedFilesChanged
        } else if method@ == "workspace/didChangeConfiguration"@ {
            NotificationKind::ConfigurationChanged
        } else {
            NotificationKind::Unknown
        },
{
    if eq(method, "initialized") {
        NotificationKind::Initialized
    } else if eq(method, "textDocument/didOpen") {
        NotificationKind::DidOpen
    } else if eq(method, "textDocument/didChange") {
        NotificationKind::DidChange
    } else if eq(method, "textDocument/didClose") {
        NotificationKind::DidClose
    } else if eq(method, "textDocument/didSave") {
        NotificationKind::DidSave
    } else if eq(method, "workspace/didChangeWatchedFiles") {
        NotificationKind::WatchedFilesChanged
    } else if eq(method, "workspace/didChangeConfiguration") {
        NotificationKind::ConfigurationChanged
    } else {
        NotificationKind::Unknown
    }
}

/// The requests that were sent to a client and wait for an answer.
pub struct Pending {
    pub waiting: Vec<i32>,
    pub next_id: i32,
}

impl Pending {
    /// No request was sent.
    pub fn new() -> (r: Pending)
        ensures
            r.waiting@ == Seq::<i32>::empty(),
            r.next_id == 1,
    {
        Pending { waiting: Vec::new(), next_id: 1 }
    }

    /// Takes note of a request that is sent, and gives its number.
    pub fn ask(&mut self) -> (id: i32)
        requires
            old(self).next_id < i32::MAX,
        ensures
            id == old(self).next_id,
            final(self).next_id == old(self).next_id + 1,
            final(self).waiting@ == old(self).waiting@.push(id),
    {
        let id: i32 = self.next_id;
        self.waiting.push(id);
        self.next_id = id + 1;
        id
    }

    /// Takes note of an answer: whether it is one that was waited for.
    pub fn take(&mut self, id: i32) -> (r: bool)
        ensures
            r == old(self).waiting@.contains(id),
            final(self).next_id == old(self).next_id,
            r ==> exists|i: int|
                0 <= i < old(self).waiting@.len() && old(self).waiting@[i] == id
                    && final(self).waiting@ == #[trigger] old(self).waiting@.remove(i),
            !r ==> final(self).waiting@ == old(self).waiting@,
    {
        let mut i: usize = 0;
        while i < self.waiting.len()
            invariant
                i <= self.waiting@.len(),
                self.waiting@ == old(self).waiting@,
                self.next_id == old(self).next_id,
                forall|j: int| 0 <= j < i ==> self.waiting@[j] != id,
            decreases self.waiting@.len() - i,
        {
            if self.waiting[i] == id {
                let ghost before = self.waiting@;
                self.waiting.remove(i);
                assert(self.waiting@ == before.remove(i as int));
                return true;
            }
            i += 1;
        }
        false
    }
}

// ---------------------------------------------------------------------------
// Laws
// ---------------------------------------------------------------------------

/// Every offer is of a kind that was asked for.
pub proof fn law_offers_are_wanted<R: Rule>(
    request: ActionRequest<'_>,
    violations: Seq<ViolationView>,
    rules: Seq<R>,
    config: Config,
    i: int,
)
    requires
        0 <= i < offers(request, violations, rules, config).len(),
    ensures
        kind_wanted(only_view(*request.only), offers(request, violations, rules, config)[i].kind.label()),
{
    let only = only_view(*request.only);
    if kind_wanted(only, "quickfix"@) {
        let n = violations.len() as int;
        let quick = quick_fixes(
            rules,
            request.path@,
            config,
            request.source@,
            request.range,
            violations,
            n,
        );
        if i < quick.len() {
            lemma_quick_kind(
                rules,
                request.path@,
                config,
                request.source@,
                request.range,
                violations,
                n,
                i,
            );
        }
    }
}

proof fn lemma_quick_kind<R: Rule>(
    rules: Seq<R>,
    path: Seq<char>,
    config: Config,
    source: Seq<char>,
    range: Range,
    violations: Seq<ViolationView>,
    n: int,
    i: int,
)
    requires
        0 <= i < quick_fixes(rules, path, config, source, range, violations, n).len(),
    ensures
        quick_fixes(rules, path, config, source, range, violations, n)[i].kind
            == ActionKind::QuickFix,
    decreases n,
{
    if n > 0 && i < quick_fixes(rules, path, config, source, range, violations, n - 1).len() {
        lemma_quick_kind(rules, path, config, source, range, violations, n - 1, i);
    }
}

/// Asking for a kind admits the kinds below it.
pub proof fn law_kinds_below_are_wanted(wanted: Seq<char>, rest: Seq<char>)
    ensures
        kind_wanted(Some(seq![wanted]), wanted + "."@ + rest),
{
    let kind = wanted + "."@ + rest;
    let above = wanted + "."@;
    let kinds = seq![wanted];
    assert(kind.take(above.len() as int) =~= above);
    assert(above.is_prefix_of(kind));
    assert(kind_fits(kind, kinds[0]));
    assert(fits_any(kind, kinds));
}

/// The lines of a diagnostic count from 0 where those of the violation count from 1.
pub proof fn law_lines_count_from_zero(v: ViolationView, source: Seq<char>)
    requires
        1 <= v.line <= u32::MAX,
    ensures
        diagnostic_of(v, source).range.start.line + 1 == v.line,
{
}

/// The edits that fix a violation turn the document into what fixing that violation gives.
pub proof fn law_quick_fix_makes_the_fix<R: Rule>(
    rules: Seq<R>,
    path: Seq<char>,
    config: Config,
    source: Seq<char>,
    v: ViolationView,
)
    requires
        violation_edits(rules, path, config, source, v) is Some,
        full_lines(source).len() <= u32::MAX,
        ({
            let target = TargetView { rule: v.rule, line: v.line, col: v.col };
            let fixed = document_fixed(rules, path, config, source, Some(target))->0;
            full_lines(fixed).len() <= usize::MAX
        }),
    ensures
        ({
            let target = TargetView { rule: v.rule, line: v.line, col: v.col };
            document_fixed(rules, path, config, source, Some(target)) == Some(
                edited(source, violation_edits(rules, path, config, source, v)->0),
            )
        }),
{
    let target = TargetView { rule: v.rule, line: v.line, col: v.col };
    let fixed = document_fixed(rules, path, config, source, Some(target))->0;
    law_edits_give_the_new_text(source, fixed);
}

} // verus!
