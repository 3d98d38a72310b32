//! Rewriting the lines of a `from X import ...` statement without some of its names.
use crate::noqa::{first_word, take_word};
use crate::ordered::has_text;
use crate::split::{join, join_spec, split, split_spec};
use crate::text::{
    after_last, chars, contains, find, find_char, find_last_char, find_spec, index_of, occurs, part,
    push_all, starts_with, string, strs, trim, trim_end, trim_end_spec, trim_spec, trim_start,
    trim_start_spec,
};
use vstd::prelude::*;
use vstd::string::*;

verus! {

// ---------------------------------------------------------------------------
// Comments
// ---------------------------------------------------------------------------

/// The position of the first `#` at or behind `i` that stands outside quotes.
pub open spec fn comment_at(s: Seq<char>, i: int, in_single: bool, in_double: bool) -> Option<int>
    decreases s.len() - i,
{
    if i < 0 || i >= s.len() {
        None
    } else if s[i] == '\'' && !in_double {
        comment_at(s, i + 1, !in_single, in_double)
    } else if s[i] == '"' && !in_single {
        comment_at(s, i + 1, in_single, !in_double)
    } else if s[i] == '#' && !in_single && !in_double {
        Some(i)
    } else {
        comment_at(s, i + 1, in_single, in_double)
    }
}

/// A line of code without its comment and the white space before it.
pub open spec fn code_part(s: Seq<char>) -> Seq<char> {
    match comment_at(s, 0, false, false) {
        Some(i) => trim_end_spec(s.take(i)),
        None => trim_end_spec(s),
    }
}

/// A line of code without its comment and the white space before it.
pub fn strip_comment(s: &[char]) -> (r: &[char])
    ensures
        r@ == code_part(s@),
{
    let mut in_single = false;
    let mut in_double = false;
    let mut i: usize = 0;
    while i < s.len()
        invariant
            i <= s@.len(),
            comment_at(s@, 0, false, false) == comment_at(s@, i as int, in_single, in_double),
        decreases s@.len() - i,
    {
        let c = s[i];
        if c == '\'' && !in_double {
            in_single = !in_single;
        } else if c == '"' && !in_single {
            in_double = !in_double;
        } else if c == '#' && !in_single && !in_double {
            assert(s@.subrange(0, i as int) =~= s@.take(i as int));
            return trim_end(part(s, 0, i));
        }
        i += 1;
    }
    trim_end(s)
}

// ---------------------------------------------------------------------------
// The parts of a statement
// ---------------------------------------------------------------------------

/// What stands before and behind the first `sep` in `s`.
pub open spec fn split_once_spec(s: Seq<char>, sep: Seq<char>) -> Option<(Seq<char>, Seq<char>)> {
    match find_spec(s, sep) {
        Some(i) => Some((s.take(i), s.skip(i + sep.len()))),
        None => None,
    }
}

/// The module and the names of `from MODULE import NAMES`.
pub open spec fn from_import(code: Seq<char>) -> Option<(Seq<char>, Seq<char>)> {
    if "from "@.is_prefix_of(code) {
        split_once_spec(code.skip(5), " import "@)
    } else {
        None
    }
}

/// The module and the names of `from MODULE import NAMES`.
fn split_from(code: &[char]) -> (r: Option<(Vec<char>, Vec<char>)>)
    ensures
        match r {
            Some((module, names)) => from_import(code@) == Some((module@, names@)),
            None => from_import(code@) is None,
        },
{
    let prefix = chars("from ");
    let sep = chars(" import ");
    proof {
        reveal_strlit("from ");
        reveal_strlit(" import ");
    }
    if !starts_with(code, prefix.as_slice()) {
        return None;
    }
    let rest = part(code, 5, code.len());
    assert(rest@ =~= code@.skip(5));
    match find(rest, sep.as_slice()) {
        Some(i) => {
            assert(i + sep@.len() <= rest@.len());
            let mut module: Vec<char> = Vec::new();
            let mut names: Vec<char> = Vec::new();
            push_all(&mut module, part(rest, 0, i));
            push_all(&mut names, part(rest, i + 8, rest.len()));
            assert(module@ =~= rest@.take(i as int));
            assert(names@ =~= rest@.skip(i + 8));
            Some((module, names))
        },
        None => None,
    }
}

/// What a line of a parenthesised import says of its names: on the first line only what follows
/// the opening parenthesis, on the last only what precedes the closing one.
pub open spec fn names_in(line: Seq<char>, first: bool, last: bool) -> Seq<char> {
    let s = code_part(trim_end_spec(line));
    let open = index_of(s, '(');
    let a = if !first {
        0
    } else if open < s.len() {
        open + 1
    } else {
        s.len() as int
    };
    let b = if last && after_last(s, ')') > 0 {
        after_last(s, ')') - 1
    } else {
        s.len() as int
    };
    if a <= b {
        s.subrange(a, b)
    } else {
        Seq::empty()
    }
}

/// The names of the lines from `at` up to `i`, with a comma behind each line but the one at
/// `end`.
pub open spec fn names_to(lines: Seq<Seq<char>>, at: int, end: int, i: int) -> Seq<char>
    decreases i - at,
{
    if i <= at {
        Seq::empty()
    } else {
        let before = names_to(lines, at, end, i - 1) + names_in(
            lines[i - 1],
            i - 1 == at,
            i - 1 == end,
        );
        if i - 1 < end {
            before.push(',')
        } else {
            before
        }
    }
}

/// The names of a parenthesised import over the lines from `at` to `end`.
pub open spec fn names_between(lines: Seq<Seq<char>>, at: int, end: int) -> Seq<char> {
    names_to(
        lines,
        at,
        end,
        if end < lines.len() {
            end + 1
        } else {
            lines.len() as int
        },
    )
}

fn push_names(out: &mut Vec<char>, line: &str, first: bool, last: bool)
    ensures
        final(out)@ == old(out)@ + names_in(line@, first, last),
{
    let text = chars(line);
    let s = strip_comment(trim_end(text.as_slice()));
    let open: usize = find_char(s, '(');
    let close: usize = find_last_char(s, ')');
    let a: usize = if !first {
        0
    } else if open < s.len() {
        open + 1
    } else {
        s.len()
    };
    let b: usize = if last && close > 0 {
        close - 1
    } else {
        s.len()
    };
    if a <= b {
        push_all(out, part(s, a, b));
    } else {
        assert(out@ =~= out@ + Seq::<char>::empty());
    }
}

fn collect_names(lines: &Vec<String>, at: usize, end: usize) -> (r: Vec<char>)
    requires
        at < lines@.len(),
        at <= end,
    ensures
        r@ == names_between(strs(lines@), at as int, end as int),
{
    let ghost all = strs(lines@);
    let stop: usize = if end < lines.len() {
        end + 1
    } else {
        lines.len()
    };
    let mut out: Vec<char> = Vec::new();
    let mut i: usize = at;
    while i < stop
        invariant
            at <= i <= stop <= lines@.len(),
            all == strs(lines@),
            out@ == names_to(all, at as int, end as int, i as int),
        decreases stop - i,
    {
        assert(all[i as int] == lines@[i as int]@);
        push_names(&mut out, lines[i].as_str(), i == at, i == end);
        if i < end {
            out.push(',');
        }
        i += 1;
    }
    out
}

// ---------------------------------------------------------------------------
// The names that stay
// ---------------------------------------------------------------------------

/// The name that an entry of an import begins with; an entry without words is its own name.
pub open spec fn entry_name(s: Seq<char>) -> Seq<char> {
    if first_word(s).len() > 0 {
        first_word(s)
    } else {
        s
    }
}

/// The trimmed entries that do not import one of `removed`; empty ones stay where `keep_empty`.
pub open spec fn survivors(
    fields: Seq<Seq<char>>,
    removed: Seq<Seq<char>>,
    keep_empty: bool,
) -> Seq<Seq<char>>
    decreases fields.len(),
{
    if fields.len() == 0 {
        Seq::empty()
    } else {
        let before = survivors(fields.drop_last(), removed, keep_empty);
        let s = trim_spec(fields.last());
        if (s.len() > 0 || keep_empty) && !removed.contains(entry_name(s)) {
            before.push(s)
        } else {
            before
        }
    }
}

fn find_survivors(names: &[char], removed: &Vec<String>, keep_empty: bool) -> (r: Vec<String>)
    ensures
        strs(r@) == survivors(split_spec(names@, ','), strs(removed@), keep_empty),
{
    let fields = split(names, ',');
    let ghost all = split_spec(names@, ',');
    let mut out: Vec<String> = Vec::new();
    let mut i: usize = 0;
    assert(strs(out@) =~= Seq::empty());
    assert(all.take(0) =~= Seq::empty());
    while i < fields.len()
        invariant
            i <= fields@.len(),
            strs(fields@) == all,
            strs(out@) == survivors(all.take(i as int), strs(removed@), keep_empty),
        decreases fields@.len() - i,
    {
        let field = chars(fields[i].as_str());
        assert(all.take(i + 1).drop_last() =~= all.take(i as int));
        assert(all.take(i + 1).last() == field@);
        let s = trim(field.as_slice());
        let word = take_word(s);
        let name = if word.len() > 0 {
            string(word)
        } else {
            string(s)
        };
        let ghost before = out@;
        if (s.len() > 0 || keep_empty) && !has_text(removed, name.as_str()) {
            out.push(string(s));
            assert(strs(out@) =~= strs(before).push(s@));
        }
        i += 1;
    }
    assert(all.take(all.len() as int) =~= all);
    out
}

// ---------------------------------------------------------------------------
// The lines that take the statement's place
// ---------------------------------------------------------------------------

/// A `from` import of several names, one on each line.
pub open spec fn import_block(
    leading: Seq<char>,
    module: Seq<char>,
    names: Seq<Seq<char>>,
    eol: Seq<char>,
) -> Seq<Seq<char>> {
    seq![leading + "from "@ + module + " import ("@ + eol] + names.map_values(
        |n: Seq<char>| leading + "    "@ + n + ","@ + eol,
    ) + seq![leading + ")"@ + eol]
}

/// The lines for an import of which no name is left.
pub open spec fn nothing_left(leading: Seq<char>, pass: bool, eol: Seq<char>) -> Seq<Seq<char>> {
    if pass {
        seq![leading + "pass"@ + eol]
    } else {
        Seq::empty()
    }
}

/// The white space that a line begins with.
pub open spec fn indent_of(line: Seq<char>) -> Seq<char> {
    line.take(line.len() - trim_start_spec(line).len())
}

/// What takes the place of the statement over the lines from `at` to `end` when the names in
/// `removed` leave it; `pass` says that the block would be empty without it. Names in parentheses
/// stay in a block where it has room in those lines, and else come to stand on one line. `None`
/// leaves the statement alone: one that goes over several lines without parentheses, or does not
/// read `from X import ...`.
pub open spec fn new_lines(
    lines: Seq<Seq<char>>,
    at: int,
    end: int,
    removed: Seq<Seq<char>>,
    pass: bool,
    eol: Seq<char>,
) -> Option<Seq<Seq<char>>> {
    let line = lines[at];
    let leading = indent_of(line);
    let code = code_part(trim_start_spec(line));
    if occurs(code, "("@) {
        let names = survivors(
            split_spec(names_between(lines, at, end), ','),
            removed,
            false,
        );
        let module = match from_import(code) {
            Some((module, _)) => module,
            None => Seq::empty(),
        };
        if names.len() == 0 {
            Some(nothing_left(leading, pass, eol))
        } else if names.len() == 1 || names.len() + 2 > end - at + 1 {
            Some(
                seq![leading + "from "@ + module + " import "@ + join_spec(names, ", "@) + eol],
            )
        } else {
            Some(import_block(leading, module, names, eol))
        }
    } else if at != end {
        None
    } else {
        match from_import(code) {
            Some((module, names)) => {
                let left = survivors(split_spec(names, ','), removed, true);
                if left.len() == 0 {
                    Some(nothing_left(leading, pass, eol))
                } else {
                    Some(
                        seq![
                            leading + "from "@ + module + " import "@ + join_spec(left, ", "@)
                                + eol,
                        ],
                    )
                }
            },
            None => None,
        }
    }
}

fn write_nothing(leading: &str, pass: bool, eol: &str) -> (r: Vec<String>)
    ensures
        strs(r@) == nothing_left(leading@, pass, eol@),
{
    let mut out: Vec<String> = Vec::new();
    if pass {
        let mut line = leading.to_owned();
        line.append("pass");
        line.append(eol);
        out.push(line);
        assert(strs(out@) =~= seq![line@]);
    } else {
        assert(strs(out@) =~= Seq::empty());
    }
    out
}

fn write_import(leading: &str, module: &str, names: &str, eol: &str) -> (r: Vec<String>)
    ensures
        strs(r@) == seq![leading@ + "from "@ + module@ + " import "@ + names@ + eol@],
{
    let mut line = leading.to_owned();
    line.append("from ");
    line.append(module);
    line.append(" import ");
    line.append(names);
    line.append(eol);
    let mut out: Vec<String> = Vec::new();
    out.push(line);
    assert(strs(out@) =~= seq![line@]);
    out
}

fn write_block(leading: &str, module: &str, names: &Vec<String>, eol: &str) -> (r: Vec<String>)
    ensures
        strs(r@) == import_block(leading@, module@, strs(names@), eol@),
{
    let ghost entry = |n: Seq<char>| leading@ + "    "@ + n + ","@ + eol@;
    let mut open = leading.to_owned();
    open.append("from ");
    open.append(module);
    open.append(" import (");
    open.append(eol);
    let ghost head = open@;
    let mut out: Vec<String> = Vec::new();
    out.push(open);
    assert(strs(out@) =~= seq![head] + strs(names@).take(0).map_values(entry));
    let mut i: usize = 0;
    while i < names.len()
        invariant
            i <= names@.len(),
            entry == |n: Seq<char>| leading@ + "    "@ + n + ","@ + eol@,
            strs(out@) == seq![head] + strs(names@).take(i as int).map_values(entry),
        decreases names@.len() - i,
    {
        let mut line = leading.to_owned();
        line.append("    ");
        line.append(names[i].as_str());
        line.append(",");
        line.append(eol);
        let ghost before = out@;
        assert(line@ == entry(names@[i as int]@));
        out.push(line);
        assert(strs(out@) =~= strs(before).push(line@));
        assert(strs(names@).take(i + 1).map_values(entry) =~= strs(names@).take(i as int).map_values(
            entry,
        ).push(line@));
        assert((seq![head] + strs(names@).take(i as int).map_values(entry)).push(line@)
            =~= seq![head] + strs(names@).take(i as int).map_values(entry).push(line@));
        i += 1;
    }
    let mut close = leading.to_owned();
    close.append(")");
    close.append(eol);
    let ghost tail = close@;
    let ghost before = out@;
    out.push(close);
    assert(strs(out@) =~= strs(before).push(tail));
    assert(strs(names@).take(names@.len() as int) =~= strs(names@));
    assert(strs(before).push(tail) =~= strs(before) + seq![tail]);
    out
}

/// What takes the place of the statement over the lines from `at` to `end`.
pub fn rewrite_import(
    lines: &Vec<String>,
    at: usize,
    end: usize,
    removed: &Vec<String>,
    pass: bool,
    eol: &str,
) -> (r: Option<Vec<String>>)
    requires
        at < lines@.len(),
        at <= end,
    ensures
        match r {
            Some(new) => new_lines(
                strs(lines@),
                at as int,
                end as int,
                strs(removed@),
                pass,
                eol@,
            ) == Some(strs(new@)),
            None => new_lines(
                strs(lines@),
                at as int,
                end as int,
                strs(removed@),
                pass,
                eol@,
            ) is None,
        },
{
    assert(strs(lines@)[at as int] == lines@[at as int]@);
    let line = chars(lines[at].as_str());
    let trimmed = trim_start(line.as_slice());
    let width: usize = line.len() - trimmed.len();
    assert(line@.subrange(0, width as int) =~= indent_of(line@));
    let leading = string(part(line.as_slice(), 0, width));
    let code = strip_comment(trimmed);
    let paren = chars("(");
    if contains(code, paren.as_slice()) {
        let names = collect_names(lines, at, end);
        let left = find_survivors(names.as_slice(), removed, false);
        let module = match split_from(code) {
            Some((module, _)) => string(module.as_slice()),
            None => String::new(),
        };
        assert(strs(left@).len() == left@.len());
        if left.len() == 0 {
            Some(write_nothing(leading.as_str(), pass, eol))
        } else if left.len() == 1 || left.len() >= end - at {
            let list = join(&left, ", ");
            Some(write_import(leading.as_str(), module.as_str(), list.as_str(), eol))
        } else {
            Some(write_block(leading.as_str(), module.as_str(), &left, eol))
        }
    } else if at != end {
        None
    } else {
        match split_from(code) {
            Some((module, names)) => {
                let left = find_survivors(names.as_slice(), removed, true);
                assert(strs(left@).len() == left@.len());
                if left.len() == 0 {
                    Some(write_nothing(leading.as_str(), pass, eol))
                } else {
                    let list = join(&left, ", ");
                    let module = string(module.as_slice());
                    Some(write_import(leading.as_str(), module.as_str(), list.as_str(), eol))
                }
            },
            None => None,
        }
    }
}

/// The lines with those from `at` to `end` replaced by `new`, which takes no more lines than they
/// are; where it takes fewer the rest become empty, so that no line moves.
pub open spec fn put_lines(
    out: Seq<Seq<char>>,
    at: int,
    end: int,
    new: Seq<Seq<char>>,
    eol: Seq<char>,
) -> Seq<Seq<char>> {
    Seq::new(
        out.len(),
        |i: int|
            if at <= i <= end {
                if i - at < new.len() {
                    new[i - at]
                } else {
                    eol
                }
            } else {
                out[i]
            },
    )
}

/// Replaces the lines from `at` to `end`.
pub fn overwrite(out: &mut Vec<String>, at: usize, end: usize, new: &Vec<String>, eol: &str)
    ensures
        strs(final(out)@) == put_lines(
            strs(old(out)@),
            at as int,
            end as int,
            strs(new@),
            eol@,
        ),
{
    let ghost before = strs(old(out)@);
    let ghost after = put_lines(before, at as int, end as int, strs(new@), eol@);
    let mut i: usize = 0;
    assert(after.take(0) + before.skip(0) =~= before);
    while i < out.len()
        invariant
            i <= out@.len(),
            out@.len() == before.len(),
            before == strs(old(out)@),
            after == put_lines(before, at as int, end as int, strs(new@), eol@),
            strs(out@) == after.take(i as int) + before.skip(i as int),
        decreases out@.len() - i,
    {
        if at <= i && i <= end {
            let line = if i - at < new.len() {
                assert(strs(new@)[i - at] == new@[i - at]@);
                new[i - at].clone()
            } else {
                eol.to_owned()
            };
            let ghost prior = out@;
            out.set(i, line);
            assert(strs(out@) =~= strs(prior).update(i as int, line@));
        } else {
            assert(strs(out@)[i as int] == before[i as int]);
        }
        assert(strs(out@) =~= after.take(i + 1) + before.skip(i + 1));
        i += 1;
    }
    assert(after.take(after.len() as int) + before.skip(before.len() as int) =~= after);
}

// ---------------------------------------------------------------------------
// Laws
// ---------------------------------------------------------------------------

/// What takes the place of a statement takes no more lines than it does, so that all of it is
/// written.
pub proof fn law_new_lines_have_room(
    lines: Seq<Seq<char>>,
    at: int,
    end: int,
    removed: Seq<Seq<char>>,
    pass: bool,
    eol: Seq<char>,
)
    requires
        at <= end,
        new_lines(lines, at, end, removed, pass, eol) is Some,
    ensures
        new_lines(lines, at, end, removed, pass, eol)->0.len() <= end - at + 1,
{
}

/// Every line that takes the place of a statement stands in the file, in order.
pub proof fn law_new_lines_are_written(
    out: Seq<Seq<char>>,
    at: int,
    end: int,
    new: Seq<Seq<char>>,
    eol: Seq<char>,
)
    requires
        0 <= at <= end < out.len(),
        new.len() <= end - at + 1,
    ensures
        put_lines(out, at, end, new, eol).subrange(at, at + new.len()) == new,
{
    assert(put_lines(out, at, end, new, eol).subrange(at, at + new.len()) =~= new);
}

} // verus!
