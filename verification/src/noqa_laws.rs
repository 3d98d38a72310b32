//! What holds of `# noqa` comments as a whole.
use crate::noqa::{
    after_noqa, all_known, entry_suppresses, field_codes, first_word, is_code, line_codes,
    list_suppresses, lookup, merge_changes, merged, named_codes, noqa_lines, noqa_source,
    strip_colons, suppressed, with_newlines,
};
use crate::ordered::{lemma_with_text, lemma_with_texts, sorted, with_text, with_texts};
use crate::split::{join_spec, lines_spec, split_spec, word_len};
use crate::text::{
    find_spec, first_at, index_of, is_space, lemma_first_unique, lemma_index_of, lemma_index_of_is,
    occurs, occurs_at, trim_end_spec, trim_spec, trim_start_spec,
};
use crate::types::RecordView;
use vstd::prelude::*;

verus! {

/// A code that can stand in a `# noqa` list: not empty, no comma, no white space, no `#` first.
pub open spec fn plain_code(c: Seq<char>) -> bool {
    &&& is_code(c)
    &&& forall|i: int| 0 <= i < c.len() ==> #[trigger] c[i] != ',' && !is_space(c[i])
}

/// Every code of a list is plain.
pub open spec fn plain_codes(codes: Seq<Seq<char>>) -> bool {
    forall|i: int| 0 <= i < codes.len() ==> plain_code(#[trigger] codes[i])
}

/// A `# noqa` that names no codes suppresses every code.
pub proof fn law_bare_noqa_suppresses_all(
    line: Seq<char>,
    code: Seq<char>,
    aliases: Seq<(Seq<char>, Seq<char>)>,
)
    requires
        after_noqa(line) is Some,
        after_noqa(line)->0.len() == 0 || after_noqa(line)->0[0] != ':',
    ensures
        suppressed(line, code, aliases),
{
}

/// A line without `# noqa` suppresses nothing.
pub proof fn law_no_noqa_suppresses_nothing(
    line: Seq<char>,
    code: Seq<char>,
    aliases: Seq<(Seq<char>, Seq<char>)>,
)
    requires
        !occurs(line, "# noqa"@),
    ensures
        !suppressed(line, code, aliases),
{
}

/// A line that suppresses a code suppresses every code that begins with it, so that naming a
/// category silences all its rules.
pub proof fn law_prefix_suppresses(
    line: Seq<char>,
    code: Seq<char>,
    longer: Seq<char>,
    aliases: Seq<(Seq<char>, Seq<char>)>,
)
    requires
        suppressed(line, code, aliases),
        code.is_prefix_of(longer),
    ensures
        suppressed(line, longer, aliases),
{
    if let Some(rest) = after_noqa(line) {
        if rest.len() > 0 && rest[0] == ':' {
            let fields = split_spec(strip_colons(rest), ',');
            let i = choose|i: int|
                0 <= i < fields.len() && entry_suppresses(
                    trim_spec(#[trigger] fields[i]),
                    code,
                    aliases,
                );
            let c = trim_spec(fields[i]);
            assert forall|p: Seq<char>| p.is_prefix_of(code) implies p.is_prefix_of(longer) by {
                assert(longer.take(p.len() as int) =~= code.take(p.len() as int));
            }
            assert(entry_suppresses(c, longer, aliases));
        }
    }
}

pub proof fn lemma_split_last(x: Seq<char>, y: Seq<char>, sep: char)
    requires
        forall|i: int| 0 <= i < y.len() ==> y[i] != sep,
    ensures
        split_spec(x + seq![sep] + y, sep) == split_spec(x, sep).push(y),
    decreases x.len(),
{
    let whole = x + seq![sep] + y;
    lemma_index_of(x, sep);
    let k = index_of(x, sep);
    assert(whole[x.len() as int] == sep);
    assert forall|j: int| 0 <= j < k implies whole[j] != sep by {
        assert(whole[j] == x[j]);
    }
    if k < x.len() {
        assert(whole[k] == x[k]);
        lemma_index_of_is(whole, sep, k);
        lemma_split_last(x.skip(k + 1), y, sep);
        assert(whole.skip(k + 1) =~= x.skip(k + 1) + seq![sep] + y);
        assert(whole.take(k) =~= x.take(k));
        assert(split_spec(whole, sep) =~= split_spec(x, sep).push(y));
    } else {
        lemma_index_of_is(whole, sep, k);
        assert(whole.skip(k + 1) =~= y);
        assert(whole.take(k) =~= x);
        lemma_index_of_is(y, sep, y.len() as int);
        assert(split_spec(y, sep) =~= seq![y]);
        assert(split_spec(x, sep) =~= seq![x]);
        assert(split_spec(whole, sep) =~= seq![x] + seq![y]);
        assert(seq![x] + seq![y] =~= seq![x].push(y));
    }
}

/// The fields of a written list of codes, each behind a space.
pub open spec fn spaced(codes: Seq<Seq<char>>) -> Seq<Seq<char>> {
    Seq::new(codes.len(), |i: int| seq![' '] + codes[i])
}

proof fn lemma_split_join(codes: Seq<Seq<char>>)
    requires
        codes.len() > 0,
        plain_codes(codes),
    ensures
        split_spec(seq![' '] + join_spec(codes, ", "@), ',') == spaced(codes),
    decreases codes.len(),
{
    reveal_strlit(", ");
    let last = codes.last();
    assert(last == codes[codes.len() - 1]);
    let y = seq![' '] + last;
    assert forall|i: int| 0 <= i < y.len() implies y[i] != ',' by {
        if i > 0 {
            assert(y[i] == last[i - 1]);
        }
    }
    if codes.len() == 1 {
        let whole = seq![' '] + join_spec(codes, ", "@);
        assert(whole =~= y);
        lemma_index_of_is(y, ',', y.len() as int);
        assert(split_spec(y, ',') =~= spaced(codes));
    } else {
        let rest = codes.drop_last();
        assert forall|i: int| 0 <= i < rest.len() implies plain_code(#[trigger] rest[i]) by {
            assert(rest[i] == codes[i]);
        }
        lemma_split_join(rest);
        let x = seq![' '] + join_spec(rest, ", "@);
        assert(", "@ =~= seq![',', ' ']);
        assert(seq![' '] + join_spec(codes, ", "@) =~= x + seq![','] + y);
        lemma_split_last(x, y, ',');
        assert(spaced(codes) =~= spaced(rest).push(y));
    }
}

pub proof fn lemma_word_whole(c: Seq<char>)
    requires
        forall|i: int| 0 <= i < c.len() ==> !is_space(#[trigger] c[i]),
    ensures
        word_len(c) == c.len(),
    decreases c.len(),
{
    if c.len() > 0 {
        assert forall|i: int| 0 <= i < c.skip(1).len() implies !is_space(#[trigger] c.skip(1)[i]) by {
            assert(c.skip(1)[i] == c[i + 1]);
        }
        lemma_word_whole(c.skip(1));
    }
}

proof fn lemma_spaced_code(c: Seq<char>)
    requires
        plain_code(c),
    ensures
        trim_spec(seq![' '] + c) == c,
        first_word(seq![' '] + c) == c,
{
    let s = seq![' '] + c;
    assert(s.skip(1) =~= c);
    assert(!is_space(c[0]));
    reveal_with_fuel(trim_start_spec, 2);
    assert(trim_start_spec(s) == c);
    assert(!is_space(c[c.len() - 1]));
    assert(trim_end_spec(c) == c);
    lemma_word_whole(c);
    assert(c.take(c.len() as int) =~= c);
}

proof fn lemma_word_plain(s: Seq<char>)
    requires
        forall|i: int| 0 <= i < s.len() ==> s[i] != ',',
    ensures
        forall|i: int|
            0 <= i < first_word(s).len() ==> #[trigger] first_word(s)[i] != ',' && !is_space(
                first_word(s)[i],
            ),
    decreases s.len(),
{
    if s.len() > 0 && is_space(s[0]) {
        assert forall|i: int| 0 <= i < s.skip(1).len() implies s.skip(1)[i] != ',' by {
            assert(s.skip(1)[i] == s[i + 1]);
        }
        lemma_word_plain(s.skip(1));
        assert(first_word(s) == first_word(s.skip(1)));
    } else {
        lemma_word_len(s);
        assert forall|i: int| 0 <= i < first_word(s).len() implies #[trigger] first_word(s)[i] != ','
            && !is_space(first_word(s)[i]) by {
            assert(first_word(s)[i] == s[i]);
        }
    }
}

proof fn lemma_word_len(s: Seq<char>)
    ensures
        0 <= word_len(s) <= s.len(),
        forall|i: int| 0 <= i < word_len(s) ==> !is_space(#[trigger] s[i]),
    decreases s.len(),
{
    if s.len() > 0 && !is_space(s[0]) {
        lemma_word_len(s.skip(1));
        assert forall|i: int| 0 <= i < word_len(s) implies !is_space(#[trigger] s[i]) by {
            if i > 0 {
                assert(s.skip(1)[i - 1] == s[i]);
            }
        }
    }
}

proof fn lemma_split_without(s: Seq<char>, sep: char)
    ensures
        forall|i: int, j: int|
            0 <= i < split_spec(s, sep).len() && 0 <= j < split_spec(s, sep)[i].len()
                ==> #[trigger] split_spec(s, sep)[i][j] != sep,
    decreases s.len(),
{
    lemma_index_of(s, sep);
    let k = index_of(s, sep);
    let parts = split_spec(s, sep);
    if k < s.len() {
        lemma_split_without(s.skip(k + 1), sep);
        let rest = split_spec(s.skip(k + 1), sep);
        assert forall|i: int, j: int| 0 <= i < parts.len() && 0 <= j < parts[i].len() implies
            #[trigger] parts[i][j] != sep by {
            if i == 0 {
                assert(parts[0] == s.take(k));
            } else {
                assert(parts[i] == rest[i - 1]);
                assert(rest[i - 1][j] != sep);
            }
        }
    }
}

/// The codes read off the fields are sorted and plain.
proof fn lemma_field_codes(fields: Seq<Seq<char>>)
    requires
        forall|i: int, j: int|
            0 <= i < fields.len() && 0 <= j < fields[i].len() ==> #[trigger] fields[i][j] != ',',
    ensures
        sorted(field_codes(fields)),
        plain_codes(field_codes(fields)),
        forall|i: int|
            0 <= i < fields.len() && is_code(first_word(fields[i])) ==> field_codes(
                fields,
            ).contains(first_word(#[trigger] fields[i])),
    decreases fields.len(),
{
    if fields.len() > 0 {
        let rest = fields.drop_last();
        assert forall|i: int, j: int| 0 <= i < rest.len() && 0 <= j < rest[i].len() implies
            #[trigger] rest[i][j] != ',' by {
            assert(fields[i][j] != ',');
        }
        lemma_field_codes(rest);
        let last = fields.last();
        assert forall|j: int| 0 <= j < last.len() implies last[j] != ',' by {
            assert(fields[fields.len() - 1][j] != ',');
        }
        lemma_word_plain(last);
        let w = first_word(last);
        let codes = field_codes(fields);
        if is_code(w) {
            lemma_with_text(field_codes(rest), w);
            assert(codes == with_text(field_codes(rest), w));
            assert(plain_code(w));
            assert forall|i: int| 0 <= i < codes.len() implies plain_code(#[trigger] codes[i]) by {
                assert(codes.contains(codes[i]));
                if codes[i] != w {
                    assert(field_codes(rest).contains(codes[i]));
                    let k = field_codes(rest).index_of(codes[i]);
                    assert(plain_code(field_codes(rest)[k]));
                }
            }
        }
        assert forall|i: int| 0 <= i < fields.len() && is_code(first_word(fields[i])) implies
            codes.contains(first_word(#[trigger] fields[i])) by {
            if i < rest.len() {
                assert(rest[i] == fields[i]);
                assert(field_codes(rest).contains(first_word(rest[i])));
            } else {
                assert(fields[i] == last);
            }
        }
    }
}

/// How a line that ends in a written list of codes reads.
proof fn lemma_written_list(head: Seq<char>, codes: Seq<Seq<char>>)
    requires
        codes.len() > 0,
        plain_codes(codes),
        forall|j: int|
            0 <= j < head.len() ==> !occurs_at(head + "# noqa"@, "# noqa"@, j),
    ensures
        ({
            let line = head + "# noqa: "@ + join_spec(codes, ", "@);
            &&& after_noqa(line) == Some(seq![':', ' '] + join_spec(codes, ", "@))
            &&& named_codes(line) == Some(field_codes(spaced(codes)))
            &&& forall|code: Seq<char>, aliases: Seq<(Seq<char>, Seq<char>)>|
                codes.contains(code) ==> suppressed(line, code, aliases)
            &&& forall|code: Seq<char>|
                codes.contains(code) ==> field_codes(spaced(codes)).contains(code)
        }),
{
    let mark = "# noqa"@;
    let list = join_spec(codes, ", "@);
    let line = head + "# noqa: "@ + list;
    reveal_strlit("# noqa");
    reveal_strlit("# noqa: ");
    assert("# noqa: "@ =~= mark + seq![':', ' ']);
    let p = head.len() as int;
    assert(line.subrange(p, p + 6) =~= mark);
    assert forall|j: int| 0 <= j < p implies !occurs_at(line, mark, j) by {
        if occurs_at(line, mark, j) {
            assert((head + mark).subrange(j, j + 6) =~= line.subrange(j, j + 6));
            assert(occurs_at(head + mark, mark, j));
        }
    }
    assert(first_at(line, mark, p));
    lemma_first_unique(line, mark, p);
    let rest = seq![':', ' '] + list;
    assert(line.skip(p + 6) =~= rest);
    assert(rest[0] == ':');
    assert(!is_space(':'));
    assert(trim_start_spec(rest) == rest);
    assert(after_noqa(line) == Some(rest));
    assert(rest.skip(1) =~= seq![' '] + list);
    reveal_with_fuel(strip_colons, 2);
    assert(rest.skip(1)[0] == ' ');
    assert(strip_colons(rest) == rest.skip(1));
    lemma_split_join(codes);
    let fields = spaced(codes);
    assert forall|i: int, j: int| 0 <= i < fields.len() && 0 <= j < fields[i].len() implies
        #[trigger] fields[i][j] != ',' by {
        assert(plain_code(codes[i]));
        if j > 0 {
            assert(fields[i][j] == codes[i][j - 1]);
        }
    }
    lemma_field_codes(fields);
    assert forall|code: Seq<char>, aliases: Seq<(Seq<char>, Seq<char>)>|
        codes.contains(code) implies suppressed(line, code, aliases) by {
        let i = codes.index_of(code);
        assert(plain_code(codes[i]));
        lemma_spaced_code(code);
        assert(code.take(code.len() as int) =~= code);
        assert(entry_suppresses(trim_spec(fields[i]), code, aliases));
        assert(list_suppresses(strip_colons(rest), code, aliases));
    }
    assert forall|code: Seq<char>| codes.contains(code) implies field_codes(fields).contains(code) by {
        let i = codes.index_of(code);
        assert(plain_code(codes[i]));
        lemma_spaced_code(code);
        assert(first_word(fields[i]) == code);
    }
}

/// The list that a changed line ends in, and what stands before it.
proof fn lemma_merged_shape(line: Seq<char>, codes: Seq<Seq<char>>) -> (r: (Seq<char>, Seq<Seq<char>>))
    requires
        codes.len() > 0,
        plain_codes(codes),
        merge_changes(line, codes),
    ensures
        merged(line, codes) == r.0 + "# noqa: "@ + join_spec(r.1, ", "@),
        plain_codes(r.1),
        r.1.len() > 0,
        forall|i: int| 0 <= i < codes.len() ==> r.1.contains(#[trigger] codes[i]),
        forall|j: int| 0 <= j < r.0.len() ==> !occurs_at(r.0 + "# noqa"@, "# noqa"@, j),
{
    let mark = "# noqa"@;
    reveal_strlit("# noqa");
    let (head, known) = match named_codes(line) {
        None => {
            reveal_strlit("  # noqa: ");
            reveal_strlit("# noqa: ");
            let head = line + seq![' ', ' '];
            assert("  # noqa: "@ =~= seq![' ', ' '] + "# noqa: "@);
            assert(line + "  # noqa: "@ =~= head + "# noqa: "@);
            assert forall|j: int| 0 <= j < head.len() implies !occurs_at(head + mark, mark, j) by {
                let whole = head + mark;
                if occurs_at(whole, mark, j) {
                    let w = whole.subrange(j, j + 6);
                    let n = line.len() as int;
                    assert(w[0] == '#' && w[1] == ' ' && w[2] == 'n' && w[3] == 'o' && w[4] == 'q'
                        && w[5] == 'a');
                    if j + 6 <= n {
                        assert(line.subrange(j, j + 6) =~= w);
                        assert(occurs_at(line, mark, j));
                        assert(occurs(line, mark));
                    } else {
                        assert(whole[n] == ' ' && whole[n + 1] == ' ');
                        if j == n || j == n + 1 {
                            assert(w[0] == whole[j]);
                        } else {
                            assert(w[n - j] == whole[n]);
                            assert(n - j == 1);
                            assert(w[2] == whole[n + 1]);
                        }
                    }
                }
            }
            (head, Seq::empty())
        },
        Some(known) => {
            let p = find_spec(line, mark)->0;
            let q = choose|q: int| first_at(line, mark, q);
            assert(occurs(line, mark));
            let some = choose|k: int| occurs_at(line, mark, k);
            lemma_first_exists(line, mark, some);
            lemma_first_unique(line, mark, q);
            let head = line.take(p);
            assert(occurs_at(line, mark, p));
            assert forall|j: int| 0 <= j < head.len() implies !occurs_at(head + mark, mark, j) by {
                if occurs_at(head + mark, mark, j) {
                    assert(head + mark =~= line.take(p + 6)) by {
                        assert(line.subrange(p, p + 6) == mark);
                        assert forall|i: int| 0 <= i < p + 6 implies (head + mark)[i] == line[i] by {
                            if i >= p {
                                assert(line.subrange(p, p + 6)[i - p] == line[i]);
                            }
                        }
                    }
                    assert(line.subrange(j, j + 6) =~= (head + mark).subrange(j, j + 6));
                    assert(occurs_at(line, mark, j));
                }
            }
            let rest = after_noqa(line)->0;
            lemma_split_without(rest.skip(1), ',');
            lemma_field_codes(split_spec(rest.skip(1), ','));
            (head, known)
        },
    };
    let all = with_texts(known, codes);
    lemma_with_texts(known, codes);
    assert forall|i: int| 0 <= i < all.len() implies plain_code(#[trigger] all[i]) by {
        assert(all.contains(all[i]));
        if known.contains(all[i]) {
            let k = known.index_of(all[i]);
            assert(plain_code(known[k]));
        } else {
            let k = codes.index_of(all[i]);
            assert(plain_code(codes[k]));
        }
    }
    assert(codes.contains(codes[0]));
    assert(all.contains(codes[0]));
    assert forall|i: int| 0 <= i < codes.len() implies all.contains(#[trigger] codes[i]) by {
        assert(codes.contains(codes[i]));
    }
    assert(merged(line, codes) == head + "# noqa: "@ + join_spec(all, ", "@));
    (head, all)
}

/// Where a text occurs at all, it has a first occurrence.
pub proof fn lemma_first_exists(s: Seq<char>, p: Seq<char>, k: int)
    requires
        occurs_at(s, p, k),
    ensures
        exists|i: int| first_at(s, p, i),
    decreases k,
{
    if exists|j: int| 0 <= j < k && occurs_at(s, p, j) {
        let j = choose|j: int| 0 <= j < k && occurs_at(s, p, j);
        lemma_first_exists(s, p, j);
    } else {
        assert(first_at(s, p, k));
    }
}

/// A line that merging has altered suppresses every code that was merged into it.
pub proof fn law_merged_codes_are_suppressed(
    line: Seq<char>,
    codes: Seq<Seq<char>>,
    i: int,
    aliases: Seq<(Seq<char>, Seq<char>)>,
)
    requires
        plain_codes(codes),
        merge_changes(line, codes),
        0 <= i < codes.len(),
    ensures
        suppressed(merged(line, codes), codes[i], aliases),
{
    let r = lemma_merged_shape(line, codes);
    lemma_written_list(r.0, r.1);
}

/// Merging the same codes a second time alters nothing.
pub proof fn law_merging_twice_changes_nothing(line: Seq<char>, codes: Seq<Seq<char>>)
    requires
        plain_codes(codes),
        codes.len() > 0,
    ensures
        !merge_changes(merged(line, codes), codes),
        merged(merged(line, codes), codes) == merged(line, codes),
{
    if merge_changes(line, codes) {
        let r = lemma_merged_shape(line, codes);
        lemma_written_list(r.0, r.1);
        let again = merged(line, codes);
        assert(all_known(named_codes(again)->0, codes)) by {
            assert forall|i: int| 0 <= i < codes.len() implies named_codes(again)->0.contains(
                #[trigger] codes[i],
            ) by {
                assert(r.1.contains(codes[i]));
            }
        }
    }
}

// ---------------------------------------------------------------------------
// What a list suppresses
// ---------------------------------------------------------------------------

/// Whether a word stands for a code by itself or by an alias: it begins the code, or the first
/// alias of that name means something that begins the code.
pub open spec fn covers(
    word: Seq<char>,
    code: Seq<char>,
    aliases: Seq<(Seq<char>, Seq<char>)>,
) -> bool {
    ||| code.len() >= word.len() && code.take(word.len() as int) == word
    ||| exists|j: int|
        0 <= j < aliases.len() && (#[trigger] aliases[j]).0 == word && (forall|k: int|
            0 <= k < j ==> (#[trigger] aliases[k]).0 != word) && code.len() >= aliases[j].1.len()
            && code.take(aliases[j].1.len() as int) == aliases[j].1
}

proof fn lemma_lookup(v: Seq<(Seq<char>, Seq<char>)>, key: Seq<char>)
    ensures
        match lookup(v, key) {
            Some(x) => exists|j: int|
                0 <= j < v.len() && (#[trigger] v[j]).0 == key && v[j].1 == x && forall|k: int|
                    0 <= k < j ==> (#[trigger] v[k]).0 != key,
            None => forall|j: int| 0 <= j < v.len() ==> (#[trigger] v[j]).0 != key,
        },
    decreases v.len(),
{
    if v.len() > 0 && v[0].0 != key {
        let rest = v.skip(1);
        lemma_lookup(rest, key);
        match lookup(rest, key) {
            Some(x) => {
                let j = choose|j: int|
                    0 <= j < rest.len() && (#[trigger] rest[j]).0 == key && rest[j].1 == x
                        && forall|k: int| 0 <= k < j ==> (#[trigger] rest[k]).0 != key;
                assert(v[j + 1] == rest[j]);
                assert forall|k: int| 0 <= k < j + 1 implies (#[trigger] v[k]).0 != key by {
                    if k > 0 {
                        assert(rest[k - 1].0 != key);
                    }
                }
            },
            None => {
                assert forall|j: int| 0 <= j < v.len() implies (#[trigger] v[j]).0 != key by {
                    if j > 0 {
                        assert(rest[j - 1].0 != key);
                    }
                }
            },
        }
    }
}

proof fn lemma_covers(word: Seq<char>, code: Seq<char>, aliases: Seq<(Seq<char>, Seq<char>)>)
    ensures
        entry_suppresses(word, code, aliases) == covers(word, code, aliases),
{
    lemma_lookup(aliases, word);
    assert(word.is_prefix_of(code) <==> code.len() >= word.len() && code.take(word.len() as int)
        == word) by {
        if word.is_prefix_of(code) {
            assert(code.take(word.len() as int) =~= word);
        }
    }
    match lookup(aliases, word) {
        Some(x) => {
            let j = choose|j: int|
                0 <= j < aliases.len() && (#[trigger] aliases[j]).0 == word && aliases[j].1 == x
                    && forall|k: int| 0 <= k < j ==> (#[trigger] aliases[k]).0 != word;
            assert(aliases[j].0 == word);
            if x.is_prefix_of(code) {
                assert(code.take(x.len() as int) =~= x);
                assert(covers(word, code, aliases));
            }
            if covers(word, code, aliases) && !word.is_prefix_of(code) {
                let i = choose|i: int|
                    0 <= i < aliases.len() && (#[trigger] aliases[i]).0 == word && (forall|k: int|
                        0 <= k < i ==> (#[trigger] aliases[k]).0 != word) && code.len()
                        >= aliases[i].1.len() && code.take(aliases[i].1.len() as int)
                        == aliases[i].1;
                if i < j {
                    assert(aliases[i].0 != word);
                } else if j < i {
                    assert(aliases[j].0 != word);
                }
                assert(x.is_prefix_of(code));
            }
        },
        None => {},
    }
}

/// White space before a text that does not begin with it is what trimming its start removes.
proof fn lemma_gap(gap: Seq<char>, rest: Seq<char>)
    requires
        forall|i: int| 0 <= i < gap.len() ==> is_space(#[trigger] gap[i]),
        rest.len() > 0 ==> !is_space(rest[0]),
    ensures
        trim_start_spec(gap + rest) == rest,
    decreases gap.len(),
{
    let all = gap + rest;
    if gap.len() == 0 {
        assert(all =~= rest);
    } else {
        assert(is_space(gap[0]));
        assert(all.skip(1) =~= gap.skip(1) + rest);
        assert forall|i: int| 0 <= i < gap.skip(1).len() implies is_space(
            #[trigger] gap.skip(1)[i],
        ) by {
            assert(is_space(gap[i + 1]));
        }
        lemma_gap(gap.skip(1), rest);
    }
}

/// A `# noqa:` list suppresses a code exactly where one of its entries, between commas and without
/// the white space around it, covers the code. Here `gap` is the white space before the colon.
pub proof fn law_list_suppresses_what_it_covers(
    line: Seq<char>,
    p: int,
    gap: Seq<char>,
    list: Seq<char>,
    code: Seq<char>,
    aliases: Seq<(Seq<char>, Seq<char>)>,
)
    requires
        first_at(line, "# noqa"@, p),
        line.skip(p + 6) == gap + seq![':'] + list,
        forall|i: int| 0 <= i < gap.len() ==> is_space(#[trigger] gap[i]),
        list.len() > 0 ==> list[0] != ':',
    ensures
        suppressed(line, code, aliases) <==> exists|i: int|
            0 <= i < split_spec(list, ',').len() && covers(
                trim_spec(#[trigger] split_spec(list, ',')[i]),
                code,
                aliases,
            ),
{
    lemma_first_unique(line, "# noqa"@, p);
    let rest = seq![':'] + list;
    assert(gap + seq![':'] + list =~= gap + rest);
    assert(!is_space(':'));
    lemma_gap(gap, rest);
    reveal_with_fuel(strip_colons, 2);
    assert(rest.skip(1) =~= list);
    assert(strip_colons(rest) == list);
    let fields = split_spec(list, ',');
    assert forall|i: int| 0 <= i < fields.len() implies entry_suppresses(
        trim_spec(#[trigger] fields[i]),
        code,
        aliases,
    ) == covers(trim_spec(fields[i]), code, aliases) by {
        lemma_covers(trim_spec(fields[i]), code, aliases);
    }
    if suppressed(line, code, aliases) {
        let i = choose|i: int|
            0 <= i < fields.len() && entry_suppresses(
                trim_spec(#[trigger] fields[i]),
                code,
                aliases,
            );
        assert(covers(trim_spec(fields[i]), code, aliases));
    }
    if exists|i: int| 0 <= i < fields.len() && covers(trim_spec(#[trigger] fields[i]), code, aliases) {
        let i = choose|i: int|
            0 <= i < fields.len() && covers(trim_spec(#[trigger] fields[i]), code, aliases);
        assert(entry_suppresses(trim_spec(fields[i]), code, aliases));
    }
}

/// A `# noqa` with no colon behind it suppresses every code. Here `gap` is the white space behind
/// it, and `rest` what follows.
pub proof fn law_noqa_without_colon_suppresses_all(
    line: Seq<char>,
    p: int,
    gap: Seq<char>,
    rest: Seq<char>,
    code: Seq<char>,
    aliases: Seq<(Seq<char>, Seq<char>)>,
)
    requires
        first_at(line, "# noqa"@, p),
        line.skip(p + 6) == gap + rest,
        forall|i: int| 0 <= i < gap.len() ==> is_space(#[trigger] gap[i]),
        rest.len() > 0 ==> !is_space(rest[0]) && rest[0] != ':',
    ensures
        suppressed(line, code, aliases),
{
    lemma_first_unique(line, "# noqa"@, p);
    lemma_gap(gap, rest);
}

/// Codes that are written behind `# noqa: ` with `, ` between them suppress exactly the codes that
/// one of them covers: naming `KPT002` silences no `KPT001`.
pub proof fn law_written_codes_suppress_what_they_cover(
    head: Seq<char>,
    codes: Seq<Seq<char>>,
    code: Seq<char>,
    aliases: Seq<(Seq<char>, Seq<char>)>,
)
    requires
        codes.len() > 0,
        plain_codes(codes),
        forall|j: int| 0 <= j < head.len() ==> !occurs_at(head + "# noqa"@, "# noqa"@, j),
    ensures
        suppressed(head + "# noqa: "@ + join_spec(codes, ", "@), code, aliases) <==> exists|i: int|
            0 <= i < codes.len() && covers(#[trigger] codes[i], code, aliases),
{
    let list = join_spec(codes, ", "@);
    let line = head + "# noqa: "@ + list;
    lemma_written_list(head, codes);
    lemma_split_join(codes);
    let rest = seq![':', ' '] + list;
    reveal_with_fuel(strip_colons, 2);
    assert(rest.skip(1) =~= seq![' '] + list);
    assert(rest.skip(1)[0] == ' ');
    assert(strip_colons(rest) == seq![' '] + list);
    let fields = split_spec(seq![' '] + list, ',');
    assert forall|i: int| 0 <= i < codes.len() implies entry_suppresses(
        trim_spec(#[trigger] fields[i]),
        code,
        aliases,
    ) == covers(codes[i], code, aliases) by {
        assert(plain_code(codes[i]));
        lemma_spaced_code(codes[i]);
        assert(fields[i] == seq![' '] + codes[i]);
        lemma_covers(codes[i], code, aliases);
    }
    if suppressed(line, code, aliases) {
        let i = choose|i: int|
            0 <= i < fields.len() && entry_suppresses(
                trim_spec(#[trigger] fields[i]),
                code,
                aliases,
            );
        assert(covers(codes[i], code, aliases));
    }
    if exists|i: int| 0 <= i < codes.len() && covers(#[trigger] codes[i], code, aliases) {
        let i = choose|i: int| 0 <= i < codes.len() && covers(#[trigger] codes[i], code, aliases);
        assert(entry_suppresses(trim_spec(fields[i]), code, aliases));
    }
}

// ---------------------------------------------------------------------------
// What adding codes writes
// ---------------------------------------------------------------------------

/// Adding codes to a line without a `# noqa` leaves what it says and writes the codes behind it,
/// each once and in order.
pub proof fn law_codes_are_added_behind_the_line(line: Seq<char>, codes: Seq<Seq<char>>) -> (all: Seq<
    Seq<char>,
>)
    requires
        !occurs(line, "# noqa"@),
    ensures
        merged(line, codes) == line + "  # noqa: "@ + join_spec(all, ", "@),
        sorted(all),
        forall|c: Seq<char>| all.contains(c) <==> codes.contains(c),
{
    let all = with_texts(Seq::empty(), codes);
    lemma_with_texts(Seq::empty(), codes);
    assert forall|c: Seq<char>| all.contains(c) <==> codes.contains(c) by {
        assert(!Seq::<Seq<char>>::empty().contains(c));
    }
    all
}

proof fn lemma_field_codes_only(fields: Seq<Seq<char>>, c: Seq<char>)
    requires
        forall|i: int, j: int|
            0 <= i < fields.len() && 0 <= j < fields[i].len() ==> #[trigger] fields[i][j] != ',',
        field_codes(fields).contains(c),
    ensures
        exists|i: int| 0 <= i < fields.len() && first_word(#[trigger] fields[i]) == c,
    decreases fields.len(),
{
    if fields.len() > 0 {
        let rest = fields.drop_last();
        assert forall|i: int, j: int| 0 <= i < rest.len() && 0 <= j < rest[i].len() implies
            #[trigger] rest[i][j] != ',' by {
            assert(fields[i][j] != ',');
        }
        lemma_field_codes(rest);
        let w = first_word(fields.last());
        lemma_with_text(field_codes(rest), w);
        if field_codes(rest).contains(c) {
            lemma_field_codes_only(rest, c);
            let i = choose|i: int| 0 <= i < rest.len() && first_word(#[trigger] rest[i]) == c;
            assert(first_word(fields[i]) == c);
        } else {
            assert(first_word(fields[fields.len() - 1]) == c);
        }
    }
}

/// Adding codes to a line that lists codes leaves what stands before the list, and every code that
/// was listed; the line then lists those and the new ones, each once and in order. A line that
/// lists all of them already stays as it is.
pub proof fn law_codes_join_those_that_are_listed(
    head: Seq<char>,
    listed: Seq<Seq<char>>,
    codes: Seq<Seq<char>>,
) -> (all: Seq<Seq<char>>)
    requires
        listed.len() > 0,
        plain_codes(listed),
        forall|j: int| 0 <= j < head.len() ==> !occurs_at(head + "# noqa"@, "# noqa"@, j),
    ensures
        ({
            let line = head + "# noqa: "@ + join_spec(listed, ", "@);
            if forall|i: int| 0 <= i < codes.len() ==> listed.contains(#[trigger] codes[i]) {
                merged(line, codes) == line
            } else {
                merged(line, codes) == head + "# noqa: "@ + join_spec(all, ", "@)
            }
        }),
        sorted(all),
        forall|c: Seq<char>| all.contains(c) <==> listed.contains(c) || codes.contains(c),
{
    let mark = "# noqa"@;
    let line = head + "# noqa: "@ + join_spec(listed, ", "@);
    lemma_written_list(head, listed);
    let fields = spaced(listed);
    assert forall|i: int, j: int| 0 <= i < fields.len() && 0 <= j < fields[i].len() implies
        #[trigger] fields[i][j] != ',' by {
        assert(plain_code(listed[i]));
        if j > 0 {
            assert(fields[i][j] == listed[i][j - 1]);
        }
    }
    lemma_field_codes(fields);
    let known = field_codes(fields);
    assert forall|c: Seq<char>| known.contains(c) <==> listed.contains(c) by {
        if known.contains(c) {
            lemma_field_codes_only(fields, c);
            let i = choose|i: int| 0 <= i < fields.len() && first_word(#[trigger] fields[i]) == c;
            assert(plain_code(listed[i]));
            lemma_spaced_code(listed[i]);
            assert(fields[i] == seq![' '] + listed[i]);
            assert(listed[i] == c);
        }
    }
    let all = with_texts(known, codes);
    lemma_with_texts(known, codes);
    reveal_strlit("# noqa");
    reveal_strlit("# noqa: ");
    assert("# noqa: "@ =~= mark + seq![':', ' ']);
    let p = head.len() as int;
    assert(line.subrange(p, p + 6) =~= mark);
    assert forall|j: int| 0 <= j < p implies !occurs_at(line, mark, j) by {
        if occurs_at(line, mark, j) {
            assert((head + mark).subrange(j, j + 6) =~= line.subrange(j, j + 6));
            assert(occurs_at(head + mark, mark, j));
        }
    }
    assert(first_at(line, mark, p));
    lemma_first_unique(line, mark, p);
    assert(line.take(p) =~= head);
    if forall|i: int| 0 <= i < codes.len() ==> listed.contains(#[trigger] codes[i]) {
        assert(all_known(known, codes)) by {
            assert forall|i: int| 0 <= i < codes.len() implies known.contains(
                #[trigger] codes[i],
            ) by {
                assert(listed.contains(codes[i]));
            }
        }
    } else {
        let i = choose|i: int| 0 <= i < codes.len() && !listed.contains(#[trigger] codes[i]);
        assert(!known.contains(codes[i]));
        assert(!all_known(known, codes));
    }
    all
}

/// Adding codes to a line whose `# noqa` names no codes leaves it as it is.
pub proof fn law_bare_noqa_stays(
    line: Seq<char>,
    p: int,
    gap: Seq<char>,
    rest: Seq<char>,
    codes: Seq<Seq<char>>,
)
    requires
        first_at(line, "# noqa"@, p),
        line.skip(p + 6) == gap + rest,
        forall|i: int| 0 <= i < gap.len() ==> is_space(#[trigger] gap[i]),
        rest.len() > 0 ==> !is_space(rest[0]) && rest[0] != ':',
    ensures
        merged(line, codes) == line,
{
    lemma_first_unique(line, "# noqa"@, p);
    lemma_gap(gap, rest);
}

/// The codes for a line are the rules of the records for that line, each once and in order.
pub proof fn law_codes_of_a_line(records: Seq<RecordView>, line: int)
    ensures
        sorted(line_codes(records, line)),
        forall|c: Seq<char>|
            line_codes(records, line).contains(c) <==> c.len() > 0 && exists|i: int|
                0 <= i < records.len() && (#[trigger] records[i]).rule == Some(c)
                    && records[i].line is Some && (records[i].line->0 as usize) as int == line,
    decreases records.len(),
{
    if records.len() > 0 {
        let rest = records.drop_last();
        let r = records.last();
        law_codes_of_a_line(rest, line);
        let others = line_codes(rest, line);
        let all = line_codes(records, line);
        if r.rule is Some {
            lemma_with_text(others, r.rule->0);
        }
        assert forall|c: Seq<char>| all.contains(c) <==> c.len() > 0 && exists|i: int|
            0 <= i < records.len() && (#[trigger] records[i]).rule == Some(c) && records[i].line
                is Some && (records[i].line->0 as usize) as int == line by {
            if others.contains(c) {
                let i = choose|i: int|
                    0 <= i < rest.len() && (#[trigger] rest[i]).rule == Some(c) && rest[i].line
                        is Some && (rest[i].line->0 as usize) as int == line;
                assert(records[i] == rest[i]);
            }
            if exists|i: int|
                0 <= i < records.len() && (#[trigger] records[i]).rule == Some(c)
                    && records[i].line is Some && (records[i].line->0 as usize) as int == line {
                let i = choose|i: int|
                    0 <= i < records.len() && (#[trigger] records[i]).rule == Some(c)
                        && records[i].line is Some && (records[i].line->0 as usize) as int == line;
                if i < rest.len() {
                    assert(rest[i] == records[i]);
                }
            }
            if all.contains(c) && !others.contains(c) {
                assert(records[records.len() - 1].rule == Some(c));
            }
        }
    } else {
        assert forall|c: Seq<char>| !line_codes(records, line).contains(c) by {}
    }
}

// ---------------------------------------------------------------------------
// Whole files
// ---------------------------------------------------------------------------

/// Comments are added line by line: a line that no record names stays as it is, and one that some do
/// takes their codes.
pub proof fn law_codes_are_added_line_by_line(
    source: Seq<char>,
    records: Seq<RecordView>,
    i: int,
)
    requires
        0 <= i < lines_spec(source).len(),
    ensures
        noqa_lines(source, records).len() == lines_spec(source).len(),
        line_codes(records, i + 1).len() == 0 ==> noqa_lines(source, records)[i] == lines_spec(
            source,
        )[i],
        line_codes(records, i + 1).len() > 0 ==> noqa_lines(source, records)[i] == merged(
            lines_spec(source)[i],
            line_codes(records, i + 1),
        ),
{
}

/// Lines are written one after the other, each with a newline.
pub proof fn law_lines_are_written_in_turn(a: Seq<Seq<char>>, b: Seq<Seq<char>>, line: Seq<char>)
    ensures
        with_newlines(a + b) == with_newlines(a) + with_newlines(b),
        with_newlines(seq![line]) == line + "\n"@,
    decreases b.len(),
{
    reveal_strlit("\n");
    let all = a + b;
    let one = seq![line];
    assert(one.drop_last() =~= Seq::empty());
    assert(with_newlines(one.drop_last()) =~= Seq::empty());
    assert(with_newlines(one) =~= line + "\n"@);
    if b.len() == 0 {
        assert(all =~= a);
        assert(with_newlines(a) + with_newlines(b) =~= with_newlines(a));
    } else {
        let rest = b.drop_last();
        law_lines_are_written_in_turn(a, rest, line);
        assert(all.drop_last() =~= a + rest);
        assert(all.last() == b.last());
        assert(with_newlines(a) + with_newlines(rest) + b.last().push('\n') =~= with_newlines(a) + (
        with_newlines(rest) + b.last().push('\n')));
    }
}

/// The file holds all lines, and ends in a newline where it did.
pub proof fn law_files_keep_their_end(source: Seq<char>, records: Seq<RecordView>)
    requires
        source.len() > 0,
        lines_spec(source).len() > 0,
    ensures
        ({
            let text = with_newlines(noqa_lines(source, records));
            &&& source.last() == '\n' ==> noqa_source(source, records) == text
            &&& source.last() != '\n' ==> noqa_source(source, records) + "\n"@ == text
        }),
{
    reveal_strlit("\n");
    let lines = noqa_lines(source, records);
    let text = with_newlines(lines);
    assert(text.last() == '\n');
    assert(text.drop_last() + "\n"@ =~= text);
}

} // verus!
