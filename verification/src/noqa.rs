//! `# noqa` comments: which codes they suppress, and adding codes to them.
use crate::ordered::{has_text, insert_text, with_text, with_texts};
use crate::split::{find_space, join, join_spec, lines, lines_spec, split, split_spec, word_len};
use crate::text::{
    chars, eq, find, find_spec, part, push_all, starts_with, string, strs, trim, trim_spec,
    trim_start, trim_start_spec,
};
use crate::types::{Record, RecordView};
use vstd::prelude::*;
use vstd::string::*;

verus! {

/// What a list of pairs of strings says.
pub open spec fn pairs(v: Seq<(String, String)>) -> Seq<(Seq<char>, Seq<char>)> {
    v.map_values(|p: (String, String)| (p.0@, p.1@))
}

/// The value that the first pair with key `key` holds.
pub open spec fn lookup(v: Seq<(Seq<char>, Seq<char>)>, key: Seq<char>) -> Option<Seq<char>>
    decreases v.len(),
{
    if v.len() == 0 {
        None
    } else if v[0].0 == key {
        Some(v[0].1)
    } else {
        lookup(v.skip(1), key)
    }
}

/// The value that the first pair with key `key` holds.
pub fn get<'a>(v: &'a Vec<(String, String)>, key: &str) -> (r: Option<&'a String>)
    ensures
        match r {
            Some(s) => lookup(pairs(v@), key@) == Some(s@),
            None => lookup(pairs(v@), key@) is None,
        },
{
    let mut i: usize = 0;
    assert(pairs(v@).skip(0) =~= pairs(v@));
    while i < v.len()
        invariant
            i <= v@.len(),
            lookup(pairs(v@), key@) == lookup(pairs(v@).skip(i as int), key@),
        decreases v@.len() - i,
    {
        assert(pairs(v@).skip(i as int)[0] == pairs(v@)[i as int]);
        assert(pairs(v@).skip(i as int).skip(1) =~= pairs(v@).skip(i + 1));
        if eq(v[i].0.as_str(), key) {
            return Some(&v[i].1);
        }
        i += 1;
    }
    None
}

// ---------------------------------------------------------------------------
// Suppression
// ---------------------------------------------------------------------------

/// A text without its leading colons.
pub open spec fn strip_colons(s: Seq<char>) -> Seq<char>
    decreases s.len(),
{
    if s.len() > 0 && s[0] == ':' {
        strip_colons(s.skip(1))
    } else {
        s
    }
}

/// Whether the entry `c` of a `# noqa` list suppresses `code`: it is a prefix of the code, or
/// the alias of one.
pub open spec fn entry_suppresses(
    c: Seq<char>,
    code: Seq<char>,
    aliases: Seq<(Seq<char>, Seq<char>)>,
) -> bool {
    c.is_prefix_of(code) || match lookup(aliases, c) {
        Some(target) => target.is_prefix_of(code),
        None => false,
    }
}

/// Whether one of the comma-separated entries of `list` suppresses `code`.
pub open spec fn list_suppresses(
    list: Seq<char>,
    code: Seq<char>,
    aliases: Seq<(Seq<char>, Seq<char>)>,
) -> bool {
    exists|i: int|
        0 <= i < split_spec(list, ',').len() && entry_suppresses(
            trim_spec(#[trigger] split_spec(list, ',')[i]),
            code,
            aliases,
        )
}

/// What follows the first `# noqa` of a line, white space skipped.
pub open spec fn after_noqa(line: Seq<char>) -> Option<Seq<char>> {
    match find_spec(line, "# noqa"@) {
        Some(p) => Some(trim_start_spec(line.skip(p + 6))),
        None => None,
    }
}

/// Whether a line suppresses `code`: its `# noqa` names no codes, or one that covers `code`.
pub open spec fn suppressed(
    line: Seq<char>,
    code: Seq<char>,
    aliases: Seq<(Seq<char>, Seq<char>)>,
) -> bool {
    match after_noqa(line) {
        None => false,
        Some(rest) => rest.len() == 0 || rest[0] != ':' || list_suppresses(
            strip_colons(rest),
            code,
            aliases,
        ),
    }
}

/// What follows the first `# noqa` of a line, white space skipped, and where that `# noqa` is.
fn noqa_tail(line: &[char]) -> (r: Option<(usize, Vec<char>)>)
    ensures
        match r {
            Some((p, rest)) => {
                &&& find_spec(line@, "# noqa"@) == Some(p as int)
                &&& p + 6 <= line@.len()
                &&& after_noqa(line@) == Some(rest@)
            },
            None => after_noqa(line@) is None,
        },
{
    let mark = chars("# noqa");
    proof {
        reveal_strlit("# noqa");
        assert(mark@.len() == 6);
    }
    match find(line, mark.as_slice()) {
        None => None,
        Some(p) => {
            assert(p + mark@.len() <= line@.len());
            assert(line@.len() == line.len());
            let tail = part(line, p + 6, line.len());
            assert(tail@ =~= line@.skip(p + 6));
            let rest = trim_start(tail);
            let mut owned: Vec<char> = Vec::new();
            push_all(&mut owned, rest);
            assert(owned@ =~= rest@);
            Some((p, owned))
        },
    }
}

/// Whether the violation with code `code` is suppressed on `line` by a `# noqa` comment.
/// `aliases` maps codes, or prefixes of codes, to those they stand in for.
pub fn has_noqa(line: &str, code: &str, aliases: &Vec<(String, String)>) -> (r: bool)
    ensures
        r == suppressed(line@, code@, pairs(aliases@)),
{
    let line_chars = chars(line);
    let code_chars = chars(code);
    let rest = match noqa_tail(line_chars.as_slice()) {
        None => return false,
        Some((_, rest)) => rest,
    };
    if rest.len() == 0 || rest[0] != ':' {
        return true;
    }
    let mut k: usize = 0;
    assert(rest@.skip(0) =~= rest@);
    while k < rest.len() && rest[k] == ':'
        invariant
            k <= rest@.len(),
            strip_colons(rest@) == strip_colons(rest@.skip(k as int)),
        decreases rest@.len() - k,
    {
        assert(rest@.skip(k as int).skip(1) =~= rest@.skip(k + 1));
        k += 1;
    }
    let list = part(rest.as_slice(), k, rest.len());
    assert(list@ =~= rest@.skip(k as int));
    assert(list@ == strip_colons(rest@));
    let entries = split(list, ',');
    let mut i: usize = 0;
    while i < entries.len()
        invariant
            i <= entries@.len(),
            code_chars@ == code@,
            strs(entries@) == split_spec(list@, ','),
            suppressed(line@, code@, pairs(aliases@)) == list_suppresses(
                list@,
                code@,
                pairs(aliases@),
            ),
            forall|j: int|
                0 <= j < i ==> !entry_suppresses(
                    trim_spec(#[trigger] split_spec(list@, ',')[j]),
                    code@,
                    pairs(aliases@),
                ),
        decreases entries@.len() - i,
    {
        let entry = chars(entries[i].as_str());
        let c = trim(entry.as_slice());
        assert(c@ == trim_spec(split_spec(list@, ',')[i as int]));
        if starts_with(code_chars.as_slice(), c) {
            return true;
        }
        let name = string(c);
        match get(aliases, name.as_str()) {
            Some(target) => {
                let t = chars(target.as_str());
                if starts_with(code_chars.as_slice(), t.as_slice()) {
                    return true;
                }
            },
            None => {},
        }
        i += 1;
    }
    assert(split_spec(list@, ',').len() == entries@.len());
    false
}

// ---------------------------------------------------------------------------
// Adding codes
// ---------------------------------------------------------------------------

/// The first word of a text.
pub open spec fn first_word(s: Seq<char>) -> Seq<char> {
    trim_start_spec(s).take(word_len(trim_start_spec(s)))
}

/// The first word of a text.
pub fn take_word(s: &[char]) -> (r: &[char])
    ensures
        r@ == first_word(s@),
{
    let t = trim_start(s);
    let k: usize = find_space(t);
    assert(t@.subrange(0, k as int) =~= t@.take(k as int));
    part(t, 0, k)
}

/// Whether a word of a `# noqa` list is a code and no further comment.
pub open spec fn is_code(w: Seq<char>) -> bool {
    w.len() > 0 && w[0] != '#'
}

/// The codes at the start of each field, sorted and without repeats.
pub open spec fn field_codes(fields: Seq<Seq<char>>) -> Seq<Seq<char>>
    decreases fields.len(),
{
    if fields.len() == 0 {
        Seq::empty()
    } else {
        let others = field_codes(fields.drop_last());
        let w = first_word(fields.last());
        if is_code(w) {
            with_text(others, w)
        } else {
            others
        }
    }
}

/// The codes that a line's `# noqa` names; `None` where it has none or names no codes.
pub open spec fn named_codes(line: Seq<char>) -> Option<Seq<Seq<char>>> {
    match after_noqa(line) {
        Some(rest) => if rest.len() > 0 && rest[0] == ':' {
            Some(field_codes(split_spec(rest.skip(1), ',')))
        } else {
            None
        },
        None => None,
    }
}

/// Every code of `codes` is among `known`.
pub open spec fn all_known(known: Seq<Seq<char>>, codes: Seq<Seq<char>>) -> bool {
    forall|i: int| 0 <= i < codes.len() ==> known.contains(#[trigger] codes[i])
}

/// Whether merging `codes` into a line's `# noqa` alters the line.
pub open spec fn merge_changes(line: Seq<char>, codes: Seq<Seq<char>>) -> bool {
    match after_noqa(line) {
        None => true,
        Some(_) => match named_codes(line) {
            None => false,
            Some(known) => !all_known(known, codes),
        },
    }
}

/// The line with `codes` merged into its `# noqa`: appended where there is none, left alone
/// where it suppresses everything or names them all, and sorted in with the others otherwise.
pub open spec fn merged(line: Seq<char>, codes: Seq<Seq<char>>) -> Seq<char> {
    if !merge_changes(line, codes) {
        line
    } else {
        match named_codes(line) {
            None => line + "  # noqa: "@ + join_spec(with_texts(Seq::empty(), codes), ", "@),
            Some(known) => line.take(find_spec(line, "# noqa"@)->0) + "# noqa: "@ + join_spec(
                with_texts(known, codes),
                ", "@,
            ),
        }
    }
}

/// Puts each of `codes` in its place in a sorted list.
fn insert_texts(list: &mut Vec<String>, codes: &Vec<String>)
    ensures
        strs(final(list)@) == with_texts(strs(old(list)@), strs(codes@)),
{
    let mut i: usize = 0;
    assert(strs(codes@).take(0) =~= Seq::empty());
    while i < codes.len()
        invariant
            i <= codes@.len(),
            strs(list@) == with_texts(strs(old(list)@), strs(codes@).take(i as int)),
        decreases codes@.len() - i,
    {
        assert(strs(codes@).take(i + 1).drop_last() =~= strs(codes@).take(i as int));
        assert(strs(codes@).take(i + 1).last() == codes@[i as int]@);
        insert_text(list, codes[i].clone());
        i += 1;
    }
    assert(strs(codes@).take(codes@.len() as int) =~= strs(codes@));
}

/// The codes at the start of each comma-separated field.
fn codes_of(list: &[char]) -> (r: Vec<String>)
    ensures
        strs(r@) == field_codes(split_spec(list@, ',')),
{
    let fields = split(list, ',');
    let mut codes: Vec<String> = Vec::new();
    let mut i: usize = 0;
    let ghost all = split_spec(list@, ',');
    assert(strs(codes@) =~= Seq::empty());
    assert(all.take(0) =~= Seq::empty());
    while i < fields.len()
        invariant
            i <= fields@.len(),
            strs(fields@) == all,
            strs(codes@) == field_codes(all.take(i as int)),
        decreases fields@.len() - i,
    {
        let field = chars(fields[i].as_str());
        assert(all.take(i + 1).drop_last() =~= all.take(i as int));
        assert(all.take(i + 1).last() == field@);
        let w = take_word(field.as_slice());
        if w.len() > 0 && w[0] != '#' {
            insert_text(&mut codes, string(w));
        }
        i += 1;
    }
    assert(all.take(all.len() as int) =~= all);
    codes
}

/// Merges `codes` into the `# noqa` comment of a line and notes in `changed` where that alters
/// the line.
pub fn merge_noqa(line: &str, codes: &Vec<String>, changed: &mut bool) -> (r: String)
    ensures
        r@ == merged(line@, strs(codes@)),
        *final(changed) == (*old(changed) || merge_changes(line@, strs(codes@))),
{
    let text = chars(line);
    let (p, rest) = match noqa_tail(text.as_slice()) {
        None => {
            let mut all: Vec<String> = Vec::new();
            assert(strs(all@) =~= Seq::empty());
            insert_texts(&mut all, codes);
            let mut out = line.to_owned();
            out.append("  # noqa: ");
            out.append(join(&all, ", ").as_str());
            *changed = true;
            return out;
        },
        Some(found) => found,
    };
    if rest.len() == 0 || rest[0] != ':' {
        return line.to_owned();
    }
    let list = part(rest.as_slice(), 1, rest.len());
    assert(list@ =~= rest@.skip(1));
    let mut known = codes_of(list);
    let ghost before = strs(known@);
    let mut missing = false;
    let mut i: usize = 0;
    while i < codes.len()
        invariant
            i <= codes@.len(),
            missing == exists|j: int| 0 <= j < i && !before.contains(#[trigger] strs(codes@)[j]),
            before == strs(known@),
        decreases codes@.len() - i,
    {
        assert(strs(codes@)[i as int] == codes@[i as int]@);
        if !has_text(&known, codes[i].as_str()) {
            missing = true;
        }
        i += 1;
    }
    if !missing {
        return line.to_owned();
    }
    insert_texts(&mut known, codes);
    let head = part(text.as_slice(), 0, p);
    assert(head@ =~= text@.take(p as int));
    let mut out = string(head);
    out.append("# noqa: ");
    out.append(join(&known, ", ").as_str());
    *changed = true;
    out
}

/// The codes that records give for the 1-based line `line`, sorted and without repeats.
pub open spec fn line_codes(records: Seq<RecordView>, line: int) -> Seq<Seq<char>>
    decreases records.len(),
{
    if records.len() == 0 {
        Seq::empty()
    } else {
        let others = line_codes(records.drop_last(), line);
        let r = records.last();
        if r.line is Some && (r.line->0 as usize) as int == line && r.rule is Some && r.rule->0.len()
            > 0 {
            with_text(others, r.rule->0)
        } else {
            others
        }
    }
}

/// The lines of a source with the codes of `records` merged into their `# noqa` comments.
pub open spec fn noqa_lines(source: Seq<char>, records: Seq<RecordView>) -> Seq<Seq<char>> {
    Seq::new(
        lines_spec(source).len(),
        |i: int|
            if line_codes(records, i + 1).len() > 0 {
                merged(lines_spec(source)[i], line_codes(records, i + 1))
            } else {
                lines_spec(source)[i]
            },
    )
}

/// Whether merging the codes of `records` alters any of the first `n` lines of a source.
pub open spec fn noqa_alters(source: Seq<char>, records: Seq<RecordView>, n: int) -> bool {
    exists|i: int|
        0 <= i < n && line_codes(records, i + 1).len() > 0 && merge_changes(
            #[trigger] lines_spec(source)[i],
            line_codes(records, i + 1),
        )
}

/// Lines one after the other, each with a newline.
pub open spec fn with_newlines(lines: Seq<Seq<char>>) -> Seq<char>
    decreases lines.len(),
{
    if lines.len() == 0 {
        Seq::empty()
    } else {
        with_newlines(lines.drop_last()) + lines.last().push('\n')
    }
}

/// The source with the codes of `records` in its `# noqa` comments; it ends in a newline exactly
/// where it did before.
pub open spec fn noqa_source(source: Seq<char>, records: Seq<RecordView>) -> Seq<char> {
    let text = with_newlines(noqa_lines(source, records));
    if source.len() > 0 && source.last() == '\n' {
        text
    } else {
        text.drop_last()
    }
}

/// The codes that records give for a line.
fn codes_for(records: &Vec<Record>, line: usize) -> (r: Vec<String>)
    ensures
        strs(r@) == line_codes(crate::types::record_views(records@), line as int),
{
    let ghost all = crate::types::record_views(records@);
    let mut codes: Vec<String> = Vec::new();
    let mut i: usize = 0;
    assert(strs(codes@) =~= Seq::empty());
    assert(all.take(0) =~= Seq::empty());
    while i < records.len()
        invariant
            i <= records@.len(),
            all == crate::types::record_views(records@),
            strs(codes@) == line_codes(all.take(i as int), line as int),
        decreases records@.len() - i,
    {
        assert(all.take(i + 1).drop_last() =~= all.take(i as int));
        assert(all.take(i + 1).last() == records@[i as int]@);
        match (&records[i].rule, records[i].line) {
            (Some(rule), Some(at)) => {
                if at as usize == line && !rule.as_str().is_empty() {
                    insert_text(&mut codes, rule.clone());
                }
            },
            _ => {},
        }
        i += 1;
    }
    assert(all.take(all.len() as int) =~= all);
    codes
}

/// Adds the rule of each record to the `# noqa` comment of its line; `None` where no line
/// changes.
pub fn add_noqa_to_source(source: &str, records: &Vec<Record>) -> (r: Option<String>)
    ensures
        ({
            let all = crate::types::record_views(records@);
            match r {
                Some(text) => noqa_alters(source@, all, lines_spec(source@).len() as int)
                    && text@ == noqa_source(source@, all),
                None => !noqa_alters(source@, all, lines_spec(source@).len() as int),
            }
        }),
{
    let ghost all = crate::types::record_views(records@);
    let ghost after = noqa_lines(source@, all);
    let text = chars(source);
    let source_lines = lines(text.as_slice());
    let mut out: Vec<char> = Vec::new();
    let mut changed = false;
    let mut i: usize = 0;
    assert(after.take(0) =~= Seq::empty());
    while i < source_lines.len()
        invariant
            i <= source_lines@.len(),
            strs(source_lines@) == lines_spec(source@),
            all == crate::types::record_views(records@),
            after == noqa_lines(source@, all),
            out@ == with_newlines(after.take(i as int)),
            changed == noqa_alters(source@, all, i as int),
        decreases source_lines@.len() - i,
    {
        assert(strs(source_lines@)[i as int] == source_lines@[i as int]@);
        assert(after.take(i + 1).drop_last() =~= after.take(i as int));
        assert(after.take(i + 1).last() == after[i as int]);
        let ghost changed_before = changed;
        let ghost out_before = out@;
        assert(source_lines@.len() <= usize::MAX);
        let codes = codes_for(records, i + 1);
        if codes.len() > 0 {
            let line = merge_noqa(source_lines[i].as_str(), &codes, &mut changed);
            let line_text = chars(line.as_str());
            push_all(&mut out, line_text.as_slice());
        } else {
            let line_text = chars(source_lines[i].as_str());
            push_all(&mut out, line_text.as_slice());
        }
        out.push('\n');
        assert(out@ =~= out_before + after[i as int].push('\n'));
        proof {
            let codes = line_codes(all, i + 1);
            let here = codes.len() > 0 && merge_changes(lines_spec(source@)[i as int], codes);
            assert(changed == (changed_before || here));
            if here {
                assert(noqa_alters(source@, all, i + 1));
            }
            if changed_before {
                let k = choose|k: int|
                    0 <= k < i && line_codes(all, k + 1).len() > 0 && merge_changes(
                        #[trigger] lines_spec(source@)[k],
                        line_codes(all, k + 1),
                    );
                assert(merge_changes(lines_spec(source@)[k], line_codes(all, k + 1)));
                assert(noqa_alters(source@, all, i + 1));
            }
        }
        i += 1;
    }
    assert(after.take(after.len() as int) =~= after);
    if !changed {
        return None;
    }
    if text.len() == 0 || text[text.len() - 1] != '\n' {
        let ghost full = out@;
        let _ = out.pop();
        assert(out@ =~= full.drop_last());
    }
    Some(string(out.as_slice()))
}

} // verus!
