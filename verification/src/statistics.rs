//! How often each rule was broken.
use crate::formats::{collect_rules, rules_of};
use crate::noqa::{get, lookup, pairs};
use crate::report::{
    collect_findings, file_views, finding_views, findings, FileRecords, Finding, FindingView,
};
use crate::split::{decimal, number};
use crate::text::{chars, eq, strs};
use crate::types::or_text;
use vstd::prelude::*;
use vstd::string::*;

verus! {

/// How many findings break a rule.
pub open spec fn count_of(f: Seq<FindingView>, rule: Seq<char>) -> nat
    decreases f.len(),
{
    if f.len() == 0 {
        0
    } else {
        count_of(f.drop_last(), rule) + if f.last().record.shown_rule() == rule {
            1nat
        } else {
            0nat
        }
    }
}

/// A list of counts with one more behind all that are as large.
pub open spec fn place_count(
    s: Seq<(Seq<char>, nat)>,
    x: (Seq<char>, nat),
) -> Seq<(Seq<char>, nat)>
    decreases s.len(),
{
    if s.len() == 0 || s.last().1 >= x.1 {
        s.push(x)
    } else {
        place_count(s.drop_last(), x).push(s.last())
    }
}

/// The rules with their counts, the largest first; rules with one count are in order.
pub open spec fn ranked(f: Seq<FindingView>, rules: Seq<Seq<char>>) -> Seq<(Seq<char>, nat)>
    decreases rules.len(),
{
    if rules.len() == 0 {
        Seq::empty()
    } else {
        place_count(
            ranked(f, rules.drop_last()),
            (rules.last(), count_of(f, rules.last())),
        )
    }
}

/// `n` spaces.
pub open spec fn spaces(n: int) -> Seq<char> {
    Seq::new(
        if n > 0 {
            n as nat
        } else {
            0
        },
        |i: int| ' ',
    )
}

/// A line of the table: the count, the rule and its name.
pub open spec fn table_line(
    entry: (Seq<char>, nat),
    names: Seq<(Seq<char>, Seq<char>)>,
) -> Seq<char> {
    let count = decimal(entry.1);
    spaces(4 - count.len()) + count + "  "@ + entry.0 + spaces(10 - entry.0.len()) + "  "@
        + or_text(lookup(names, entry.0), ""@) + "\n"@
}

/// Several lines of the table.
pub open spec fn table_lines(
    entries: Seq<(Seq<char>, nat)>,
    names: Seq<(Seq<char>, Seq<char>)>,
) -> Seq<char>
    decreases entries.len(),
{
    if entries.len() == 0 {
        Seq::empty()
    } else {
        table_lines(entries.drop_last(), names) + table_line(entries.last(), names)
    }
}

/// The table of all rules that were broken, below an empty line; nothing where there are none.
pub open spec fn table(f: Seq<FindingView>, names: Seq<(Seq<char>, Seq<char>)>) -> Seq<char> {
    if f.len() == 0 {
        Seq::empty()
    } else {
        "\n"@ + table_lines(ranked(f, rules_of(f)), names)
    }
}

fn count_rule(found: &Vec<Finding<'_>>, rule: &str) -> (r: usize)
    ensures
        r == count_of(finding_views(found@), rule@),
{
    let ghost all = finding_views(found@);
    let mut n: usize = 0;
    let mut i: usize = 0;
    assert(all.take(0) =~= Seq::empty());
    while i < found.len()
        invariant
            i <= found@.len(),
            n <= i,
            all == finding_views(found@),
            n == count_of(all.take(i as int), rule@),
        decreases found@.len() - i,
    {
        assert(all.take(i + 1).drop_last() =~= all.take(i as int));
        assert(all.take(i + 1).last() == found@[i as int]@);
        if eq(found[i].record.read_rule().as_str(), rule) {
            n += 1;
        }
        i += 1;
    }
    assert(all.take(all.len() as int) =~= all);
    n
}

/// What a list of counts says.
pub open spec fn count_views(v: Seq<(String, usize)>) -> Seq<(Seq<char>, nat)> {
    v.map_values(|x: (String, usize)| (x.0@, x.1 as nat))
}

proof fn lemma_place_count(s: Seq<(Seq<char>, nat)>, x: (Seq<char>, nat), i: int)
    requires
        0 <= i <= s.len(),
        forall|j: int| i <= j < s.len() ==> (#[trigger] s[j]).1 < x.1,
        i == 0 || s[i - 1].1 >= x.1,
    ensures
        place_count(s, x) == s.insert(i, x),
    decreases s.len(),
{
    if i == s.len() {
        assert(s.insert(i, x) =~= s.push(x));
    } else {
        let rest = s.drop_last();
        assert forall|j: int| i <= j < rest.len() implies (#[trigger] rest[j]).1 < x.1 by {
            assert(s[j] == rest[j]);
        }
        lemma_place_count(rest, x, i);
        assert(s[s.len() - 1].1 < x.1);
        assert(s.insert(i, x) =~= rest.insert(i, x).push(s.last()));
    }
}

/// The rules with their counts, the largest first.
fn rank(found: &Vec<Finding<'_>>, rules: &Vec<String>) -> (r: Vec<(String, usize)>)
    ensures
        count_views(r@) == ranked(finding_views(found@), strs(rules@)),
{
    let ghost f = finding_views(found@);
    let ghost all = strs(rules@);
    let mut out: Vec<(String, usize)> = Vec::new();
    let mut n: usize = 0;
    assert(count_views(out@) =~= Seq::empty());
    assert(all.take(0) =~= Seq::empty());
    while n < rules.len()
        invariant
            n <= rules@.len(),
            all == strs(rules@),
            f == finding_views(found@),
            count_views(out@) == ranked(f, all.take(n as int)),
        decreases rules@.len() - n,
    {
        assert(all.take(n + 1).drop_last() =~= all.take(n as int));
        assert(all.take(n + 1).last() == rules@[n as int]@);
        let count: usize = count_rule(found, rules[n].as_str());
        let ghost prior = out@;
        let ghost s = count_views(out@);
        let ghost x = (rules@[n as int]@, count as nat);
        let mut i: usize = out.len();
        while i > 0 && out[i - 1].1 < count
            invariant
                i <= out@.len(),
                out@ == prior,
                s == count_views(prior),
                x.1 == count,
                forall|j: int| i <= j < s.len() ==> (#[trigger] s[j]).1 < x.1,
            decreases i,
        {
            assert(s[i - 1] == (prior[i - 1].0@, prior[i - 1].1 as nat));
            i -= 1;
        }
        if i > 0 {
            assert(s[i - 1] == (prior[i - 1].0@, prior[i - 1].1 as nat));
        }
        out.insert(i, (rules[n].clone(), count));
        proof {
            lemma_place_count(s, x, i as int);
        }
        assert(count_views(out@) =~= s.insert(i as int, x));
        n += 1;
    }
    assert(all.take(all.len() as int) =~= all);
    out
}

fn push_spaces(out: &mut String, width: usize, used: usize)
    ensures
        final(out)@ == old(out)@ + spaces(width - used),
{
    let mut i: usize = used;
    assert(out@ + spaces(0) =~= out@);
    while i < width
        invariant
            used <= i,
            i <= width || i == used,
            out@ == old(out)@ + spaces(i - used),
        decreases width - i,
    {
        out.push(' ');
        assert(out@ =~= old(out)@ + spaces(i + 1 - used));
        i += 1;
    }
    assert(used > width ==> spaces(width - used) =~= spaces(0));
}

fn write_table_line(code: &str, count: usize, names: &Vec<(String, String)>) -> (r: String)
    ensures
        r@ == table_line((code@, count as nat), pairs(names@)),
{
    let digits = number(count as u64);
    let width: usize = chars(digits.as_str()).len();
    let mut out = String::new();
    push_spaces(&mut out, 4, width);
    assert(out@ =~= spaces(4 - digits@.len()));
    out.append(digits.as_str());
    out.append("  ");
    out.append(code);
    push_spaces(&mut out, 10, chars(code).len());
    out.append("  ");
    match get(names, code) {
        Some(name) => out.append(name.as_str()),
        None => out.append(""),
    }
    out.append("\n");
    out
}

/// The table that `--statistics` shows. `rule_names` gives the name of each rule.
pub fn print_statistics(reported: &Vec<FileRecords>, rule_names: &Vec<(String, String)>) -> (r:
    String)
    ensures
        r@ == table(findings(file_views(reported@)), pairs(rule_names@)),
{
    let found = collect_findings(reported);
    let ghost f = findings(file_views(reported@));
    let ghost names = pairs(rule_names@);
    assert(f.len() == found@.len());
    if found.len() == 0 {
        return String::new();
    }
    let rules = collect_rules(&found);
    let entries = rank(&found, &rules);
    let ghost all = ranked(f, rules_of(f));
    let mut lines = String::new();
    let mut i: usize = 0;
    assert(all.take(0) =~= Seq::empty());
    assert(lines@ =~= Seq::empty());
    assert(all.len() == entries@.len());
    while i < entries.len()
        invariant
            i <= entries@.len(),
            count_views(entries@) == all,
            all.len() == entries@.len(),
            names == pairs(rule_names@),
            lines@ == table_lines(all.take(i as int), names),
        decreases entries@.len() - i,
    {
        assert(all.take(i + 1).drop_last() =~= all.take(i as int));
        assert(all.take(i + 1).last() == count_views(entries@)[i as int]);
        lines.append(write_table_line(entries[i].0.as_str(), entries[i].1, rule_names).as_str());
        i += 1;
    }
    assert(all.take(all.len() as int) =~= all);
    let mut out = "\n".to_owned();
    out.append(lines.as_str());
    out
}

proof fn lemma_placed_count(s: Seq<(Seq<char>, nat)>, x: (Seq<char>, nat))
    requires
        forall|i: int, j: int| 0 <= i <= j < s.len() ==> s[i].1 >= s[j].1,
    ensures
        ({
            let t = place_count(s, x);
            &&& t.len() == s.len() + 1
            &&& forall|i: int, j: int| 0 <= i <= j < t.len() ==> t[i].1 >= t[j].1
            &&& forall|i: int|
                0 <= i < t.len() ==> (#[trigger] t[i]).1 >= x.1 || (s.len() > 0 && t[i].1
                    >= s.last().1)
        }),
    decreases s.len(),
{
    let t = place_count(s, x);
    if s.len() == 0 || s.last().1 >= x.1 {
        if s.len() > 0 {
            assert forall|i: int| 0 <= i < s.len() implies (#[trigger] s[i]).1 >= x.1 by {
                assert(s[i].1 >= s[s.len() - 1].1);
            }
        }
    } else {
        let rest = s.drop_last();
        lemma_placed_count(rest, x);
        let inner = place_count(rest, x);
        assert(t == inner.push(s.last()));
        assert forall|i: int| 0 <= i < inner.len() implies (#[trigger] inner[i]).1
            >= s.last().1 by {
            if rest.len() > 0 {
                assert(rest.last().1 >= s[s.len() - 1].1);
            }
        }
    }
}

/// The table has one line for each rule, the one that was broken most often first.
pub proof fn law_most_frequent_first(f: Seq<FindingView>, rules: Seq<Seq<char>>)
    ensures
        ranked(f, rules).len() == rules.len(),
        forall|i: int, j: int|
            0 <= i <= j < ranked(f, rules).len() ==> ranked(f, rules)[i].1 >= ranked(f, rules)[j].1,
    decreases rules.len(),
{
    if rules.len() > 0 {
        law_most_frequent_first(f, rules.drop_last());
        lemma_placed_count(
            ranked(f, rules.drop_last()),
            (rules.last(), count_of(f, rules.last())),
        );
    }
}

} // verus!
