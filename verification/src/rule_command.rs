//! The command `rule`: lists the rules or explains one.
use crate::cli::RuleArgs;
use crate::rules::Rule;
use crate::statistics::spaces;
use crate::text::{chars, eq};
use crate::types::opt;
use vstd::prelude::*;
use vstd::string::*;

verus! {

/// What is told about a rule.
pub struct RuleInfo {
    pub code: String,
    pub category: String,
    /// The name of the table of its settings.
    pub config_name: String,
    pub name: String,
    pub description: String,
    pub explanation: String,
}

/// What a [`RuleInfo`] says.
#[verifier::ext_equal]
pub struct InfoView {
    pub code: Seq<char>,
    pub category: Seq<char>,
    pub config_name: Seq<char>,
    pub name: Seq<char>,
    pub description: Seq<char>,
    pub explanation: Seq<char>,
}

impl View for RuleInfo {
    type V = InfoView;

    open spec fn view(&self) -> InfoView {
        InfoView {
            code: self.code@,
            category: self.category@,
            config_name: self.config_name@,
            name: self.name@,
            description: self.description@,
            explanation: self.explanation@,
        }
    }
}

/// What several of them say.
pub open spec fn info_views(v: Seq<RuleInfo>) -> Seq<InfoView> {
    v.map_values(|i: RuleInfo| i@)
}

/// A text with spaces behind it, up to a width.
pub open spec fn padded(text: Seq<char>, width: int) -> Seq<char> {
    text + spaces(width - text.len())
}

/// The line of a rule in the list: the name of the table of its settings stands at the end.
pub open spec fn list_line(i: InfoView) -> Seq<char> {
    padded(i.code, 8) + "  "@ + padded(i.category, 10) + "  "@ + i.name + "  — "@ + i.description
        + "  ["@ + i.config_name + "]\n"@
}

/// The list of rules.
pub open spec fn list_lines(v: Seq<InfoView>) -> Seq<char>
    decreases v.len(),
{
    if v.len() == 0 {
        ""@
    } else {
        list_lines(v.drop_last()) + list_line(v.last())
    }
}

/// The first rule with a code.
pub open spec fn info_for(v: Seq<InfoView>, code: Seq<char>) -> Option<InfoView>
    decreases v.len(),
{
    if v.len() == 0 {
        None
    } else if v[0].code == code {
        Some(v[0])
    } else {
        info_for(v.skip(1), code)
    }
}

/// What the command prints, and its exit code.
pub struct Reply {
    pub stdout: String,
    pub stderr: String,
    pub code: i32,
}

/// What the command prints to standard output.
pub open spec fn reply_out(list: bool, explain: Option<Seq<char>>, v: Seq<InfoView>) -> Seq<char> {
    if list {
        list_lines(v)
    } else {
        match explain {
            Some(code) => match info_for(v, code) {
                Some(i) => i.explanation + "\n"@,
                None => ""@,
            },
            None => ""@,
        }
    }
}

/// What the command prints to standard error.
pub open spec fn reply_err(list: bool, explain: Option<Seq<char>>, v: Seq<InfoView>) -> Seq<char> {
    if list {
        ""@
    } else {
        match explain {
            Some(code) => match info_for(v, code) {
                Some(_) => ""@,
                None => "Unknown rule: "@ + code
                    + "\nRun `konform rule --list` to see all available rules.\n"@,
            },
            None => "Use --list to list all rules or --explain <CODE> to explain one.\n"@,
        }
    }
}

/// The exit code of the command.
pub open spec fn reply_code(list: bool, explain: Option<Seq<char>>, v: Seq<InfoView>) -> i32 {
    if list {
        0
    } else {
        match explain {
            Some(code) => if info_for(v, code) is Some {
                0
            } else {
                2
            },
            None => 1,
        }
    }
}

fn push_padded(out: &mut String, text: &str, width: usize)
    ensures
        final(out)@ == old(out)@ + padded(text@, width as int),
{
    let used: usize = chars(text).len();
    out.append(text);
    let ghost start = out@;
    let mut i: usize = used;
    assert(start + spaces(0) =~= start);
    while i < width
        invariant
            used <= i,
            i <= width || i == used,
            out@ == start + spaces(i - used),
        decreases width - i,
    {
        out.push(' ');
        assert(out@ =~= start + spaces(i + 1 - used));
        i += 1;
    }
    assert(used > width ==> spaces(width - used) =~= spaces(0));
    assert(out@ =~= old(out)@ + padded(text@, width as int));
}

fn write_list_line(i: &RuleInfo) -> (r: String)
    ensures
        r@ == list_line(i@),
{
    let mut out = String::new();
    push_padded(&mut out, i.code.as_str(), 8);
    assert(out@ =~= padded(i.code@, 8));
    out.append("  ");
    push_padded(&mut out, i.category.as_str(), 10);
    out.append("  ");
    out.append(i.name.as_str());
    out.append("  — ");
    out.append(i.description.as_str());
    out.append("  [");
    out.append(i.config_name.as_str());
    out.append("]\n");
    out
}

fn write_list(v: &Vec<RuleInfo>) -> (r: String)
    ensures
        r@ == list_lines(info_views(v@)),
{
    let ghost all = info_views(v@);
    let mut out = "".to_owned();
    let mut i: usize = 0;
    assert(all.take(0) =~= Seq::empty());
    while i < v.len()
        invariant
            i <= v@.len(),
            all == info_views(v@),
            out@ == list_lines(all.take(i as int)),
        decreases v@.len() - i,
    {
        assert(all.take(i + 1).drop_last() =~= all.take(i as int));
        assert(all.take(i + 1).last() == v@[i as int]@);
        out.append(write_list_line(&v[i]).as_str());
        i += 1;
    }
    assert(all.take(all.len() as int) =~= all);
    out
}

fn find_info<'a>(v: &'a Vec<RuleInfo>, code: &str) -> (r: Option<&'a RuleInfo>)
    ensures
        match r {
            Some(i) => info_for(info_views(v@), code@) == Some(i@),
            None => info_for(info_views(v@), code@) is None,
        },
{
    let ghost all = info_views(v@);
    let mut i: usize = 0;
    assert(all.skip(0) =~= all);
    while i < v.len()
        invariant
            i <= v@.len(),
            all == info_views(v@),
            info_for(all, code@) == info_for(all.skip(i as int), code@),
        decreases v@.len() - i,
    {
        assert(all.skip(i as int)[0] == v@[i as int]@);
        assert(all.skip(i as int).skip(1) =~= all.skip(i + 1));
        if eq(v[i].code.as_str(), code) {
            return Some(&v[i]);
        }
        i += 1;
    }
    None
}

/// Lists the rules or explains one.
pub fn run_rule(args: &RuleArgs, rules: &Vec<RuleInfo>) -> (r: Reply)
    ensures
        r.stdout@ == reply_out(args.list, opt(args.explain), info_views(rules@)),
        r.stderr@ == reply_err(args.list, opt(args.explain), info_views(rules@)),
        r.code == reply_code(args.list, opt(args.explain), info_views(rules@)),
{
    if args.list {
        return Reply { stdout: write_list(rules), stderr: "".to_owned(), code: 0 };
    }
    match &args.explain {
        Some(code) => match find_info(rules, code.as_str()) {
            Some(info) => {
                let mut out = info.explanation.clone();
                out.append("\n");
                Reply { stdout: out, stderr: "".to_owned(), code: 0 }
            },
            None => {
                let mut err = "Unknown rule: ".to_owned();
                err.append(code.as_str());
                err.append("\nRun `konform rule --list` to see all available rules.\n");
                Reply { stdout: "".to_owned(), stderr: err, code: 2 }
            },
        },
        None => Reply {
            stdout: "".to_owned(),
            stderr: "Use --list to list all rules or --explain <CODE> to explain one.\n".to_owned(),
            code: 1,
        },
    }
}

/// What is told about a rule.
pub open spec fn info_of<R: Rule>(rule: R) -> InfoView {
    InfoView {
        code: rule.code_of(),
        category: rule.category_of(),
        config_name: rule.config_name_of(),
        name: rule.name_of(),
        description: rule.description_of(),
        explanation: rule.explanation_of(),
    }
}

/// What is told about several rules.
pub fn describe<R: Rule>(rules: &Vec<R>) -> (r: Vec<RuleInfo>)
    ensures
        info_views(r@) == rules@.map_values(|rule: R| info_of(rule)),
{
    let ghost all = rules@.map_values(|rule: R| info_of(rule));
    let mut out: Vec<RuleInfo> = Vec::new();
    let mut i: usize = 0;
    assert(info_views(out@) =~= all.take(0));
    while i < rules.len()
        invariant
            i <= rules@.len(),
            all == rules@.map_values(|rule: R| info_of(rule)),
            info_views(out@) == all.take(i as int),
        decreases rules@.len() - i,
    {
        let rule = &rules[i];
        let info = RuleInfo {
            code: rule.code(),
            category: rule.category(),
            config_name: rule.config_name(),
            name: rule.name(),
            description: rule.description(),
            explanation: rule.explain(),
        };
        let ghost before = out@;
        out.push(info);
        assert(info_views(out@) =~= info_views(before).push(info@));
        assert(all.take(i + 1) =~= all.take(i as int).push(info@));
        i += 1;
    }
    assert(all.take(all.len() as int) =~= all);
    out
}

/// Every rule has its line in the list, behind those before it.
pub proof fn law_every_rule_is_listed(a: Seq<InfoView>, b: Seq<InfoView>, i: InfoView)
    ensures
        list_lines(a + b) == list_lines(a) + list_lines(b),
        list_lines(seq![i]) == list_line(i),
        i.code.is_prefix_of(list_line(i)),
        ("  "@ + i.name + "  — "@ + i.description + "  ["@ + i.config_name + "]\n"@).is_suffix_of(
            list_line(i),
        ),
    decreases b.len(),
{
    reveal_strlit("");
    let all = a + b;
    let one = seq![i];
    assert(one.drop_last() =~= Seq::empty());
    assert(list_lines(one.drop_last()) =~= Seq::empty());
    assert(Seq::<char>::empty() + list_line(i) =~= list_line(i));
    let line = list_line(i);
    let back = "  "@ + i.name + "  — "@ + i.description + "  ["@ + i.config_name + "]\n"@;
    let front = padded(i.code, 8) + "  "@ + padded(i.category, 10);
    assert(line =~= front + back);
    assert(line.skip(line.len() - back.len()) =~= back);
    assert(line.take(i.code.len() as int) =~= i.code);
    if b.len() == 0 {
        assert(all =~= a);
        assert(list_lines(a) + list_lines(b) =~= list_lines(a));
    } else {
        let rest = b.drop_last();
        law_every_rule_is_listed(a, rest, i);
        assert(all.drop_last() =~= a + rest);
        assert(all.last() == b.last());
        assert(list_lines(a) + list_lines(rest) + list_line(b.last()) =~= list_lines(a) + (
        list_lines(rest) + list_line(b.last())));
    }
}

/// A rule is explained by the first rule that has its code, and the command succeeds.
pub proof fn law_known_rules_are_explained(v: Seq<InfoView>, code: Seq<char>, k: int)
    requires
        0 <= k < v.len(),
        v[k].code == code,
        forall|i: int| 0 <= i < k ==> (#[trigger] v[i]).code != code,
    ensures
        reply_out(false, Some(code), v) == v[k].explanation + "\n"@,
        reply_err(false, Some(code), v).len() == 0,
        reply_code(false, Some(code), v) == 0,
{
    reveal_strlit("");
    lemma_info_for(v, code, k);
}

proof fn lemma_info_for(v: Seq<InfoView>, code: Seq<char>, k: int)
    requires
        0 <= k < v.len(),
        v[k].code == code,
        forall|i: int| 0 <= i < k ==> (#[trigger] v[i]).code != code,
    ensures
        info_for(v, code) == Some(v[k]),
    decreases v.len(),
{
    if k > 0 {
        let rest = v.skip(1);
        assert(v[0].code != code);
        assert(rest[k - 1] == v[k]);
        assert forall|i: int| 0 <= i < k - 1 implies (#[trigger] rest[i]).code != code by {
            assert(rest[i] == v[i + 1]);
        }
        lemma_info_for(rest, code, k - 1);
    }
}

/// A code that no rule has is an error, and so is a question for nothing.
pub proof fn law_unknown_rules_are_errors(v: Seq<InfoView>, code: Seq<char>)
    requires
        forall|i: int| 0 <= i < v.len() ==> (#[trigger] v[i]).code != code,
    ensures
        reply_out(false, Some(code), v).len() == 0,
        ("Unknown rule: "@ + code + "\n"@).is_prefix_of(reply_err(false, Some(code), v)),
        reply_code(false, Some(code), v) == 2,
        reply_out(false, None, v).len() == 0,
        reply_code(false, None, v) == 1,
{
    reveal_strlit("");
    lemma_no_info(v, code);
    reveal_strlit("\n");
    reveal_strlit("\nRun `konform rule --list` to see all available rules.\n");
    let e = reply_err(false, Some(code), v);
    let n = "Unknown rule: "@.len() + code.len() as int;
    assert(e.take(n + 1) =~= "Unknown rule: "@ + code + "\n"@);
}

proof fn lemma_no_info(v: Seq<InfoView>, code: Seq<char>)
    requires
        forall|i: int| 0 <= i < v.len() ==> (#[trigger] v[i]).code != code,
    ensures
        info_for(v, code) is None,
    decreases v.len(),
{
    if v.len() > 0 {
        let rest = v.skip(1);
        assert(v[0].code != code);
        assert forall|i: int| 0 <= i < rest.len() implies (#[trigger] rest[i]).code != code by {
            assert(rest[i] == v[i + 1]);
        }
        lemma_no_info(rest, code);
    }
}

/// The list is printed whatever else is asked for.
pub proof fn law_the_list_comes_first(explain: Option<Seq<char>>, v: Seq<InfoView>)
    ensures
        reply_out(true, explain, v) == list_lines(v),
        reply_err(true, explain, v).len() == 0,
        reply_code(true, explain, v) == 0,
{
    reveal_strlit("");
}

} // verus!
