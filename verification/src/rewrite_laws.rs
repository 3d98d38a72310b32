//! What becomes of an import statement when some of its names leave it.
use crate::kis001_fix_laws::law_entries_stay_on_their_own_account;
use crate::noqa::first_word;
use crate::noqa_laws::{lemma_split_last, lemma_word_whole};
use crate::rewrite::{
    code_part, comment_at, entry_name, from_import, indent_of, names_between, names_in, names_to,
    new_lines, survivors,
};
use crate::split::{join_spec, split_spec, word_len};
use crate::text::{
    after_last, is_space, lemma_first_unique, lemma_index_of_is, occurs, occurs_at, trim_end_spec,
    trim_spec, trim_start_spec,
};
use crate::text_laws::{is_blank, law_words_end_at_white_space};
use vstd::prelude::*;

verus! {

/// Whether a text is a name as code has it: no white space, comma, parenthesis, quote or comment in
/// it.
pub open spec fn is_plain(s: Seq<char>) -> bool {
    s.len() > 0 && forall|i: int| 0 <= i < s.len() ==> is_plain_char(#[trigger] s[i])
}

/// Whether a character can be part of a name.
pub open spec fn is_plain_char(c: char) -> bool {
    !is_space(c) && c != ',' && c != '(' && c != ')' && c != '\'' && c != '"' && c != '#'
}

/// Whether all of several texts are names.
pub open spec fn all_plain(names: Seq<Seq<char>>) -> bool {
    forall|i: int| 0 <= i < names.len() ==> is_plain(#[trigger] names[i])
}

/// The names that stay: those that are not removed, in order.
pub open spec fn left_of(names: Seq<Seq<char>>, removed: Seq<Seq<char>>) -> Seq<Seq<char>> {
    names.filter(|n: Seq<char>| !removed.contains(n))
}

// ---------------------------------------------------------------------------
// Parts of a line
// ---------------------------------------------------------------------------

proof fn lemma_trim_front(blank: Seq<char>, rest: Seq<char>)
    requires
        is_blank(blank),
        rest.len() > 0,
        !is_space(rest[0]),
    ensures
        trim_start_spec(blank + rest) == rest,
    decreases blank.len(),
{
    let all = blank + rest;
    if blank.len() == 0 {
        assert(all =~= rest);
    } else {
        let b = blank.skip(1);
        assert(is_space(blank[0]));
        assert forall|i: int| 0 <= i < b.len() implies is_space(#[trigger] b[i]) by {
            assert(b[i] == blank[i + 1]);
        }
        lemma_trim_front(b, rest);
        assert(all.skip(1) =~= b + rest);
        assert(all[0] == blank[0]);
    }
}

proof fn lemma_trim_back(rest: Seq<char>, blank: Seq<char>)
    requires
        is_blank(blank),
        rest.len() > 0,
        !is_space(rest.last()),
    ensures
        trim_end_spec(rest + blank) == rest,
    decreases blank.len(),
{
    let all = rest + blank;
    if blank.len() == 0 {
        assert(all =~= rest);
    } else {
        let b = blank.drop_last();
        assert(is_space(blank[blank.len() - 1]));
        assert forall|i: int| 0 <= i < b.len() implies is_space(#[trigger] b[i]) by {
            assert(b[i] == blank[i]);
        }
        lemma_trim_back(rest, b);
        assert(all.drop_last() =~= rest + b);
        assert(all.last() == blank.last());
    }
}

/// Whether a text has no quotes and no comment.
pub open spec fn is_bare(s: Seq<char>) -> bool {
    forall|i: int| 0 <= i < s.len() ==> #[trigger] s[i] != '\'' && s[i] != '"' && s[i] != '#'
}

proof fn lemma_no_comment(s: Seq<char>, i: int)
    requires
        is_bare(s),
        0 <= i,
    ensures
        comment_at(s, i, false, false) is None,
    decreases s.len() - i,
{
    if i < s.len() {
        assert(s[i] != '\'');
        lemma_no_comment(s, i + 1);
    }
}

/// A comment begins at the first number sign outside quotes: a text without quotes is cut there,
/// and at the white space before it.
pub proof fn law_comments_are_cut_off(code: Seq<char>, blank: Seq<char>, comment: Seq<char>)
    requires
        is_bare(code),
        code.len() > 0,
        !is_space(code.last()),
        is_blank(blank),
    ensures
        code_part(code + blank + "#"@ + comment) == code,
        code_part(code + blank) == code,
{
    reveal_strlit("#");
    let front = code + blank;
    assert(is_bare(front)) by {
        assert forall|i: int| 0 <= i < front.len() implies #[trigger] front[i] != '\'' && front[i]
            != '"' && front[i] != '#' by {
            if i < code.len() {
                assert(front[i] == code[i]);
            } else {
                assert(front[i] == blank[i - code.len()]);
                assert(is_space(blank[i - code.len()]));
            }
        }
    }
    let all = front + "#"@ + comment;
    lemma_comment_found(front, comment, 0);
    assert(all.take(front.len() as int) =~= front);
    lemma_trim_back(code, blank);
    lemma_no_comment(front, 0);
}

proof fn lemma_comment_found(front: Seq<char>, comment: Seq<char>, i: int)
    requires
        is_bare(front),
        0 <= i <= front.len(),
    ensures
        comment_at(front + "#"@ + comment, i, false, false) == Some(front.len() as int),
    decreases front.len() - i,
{
    reveal_strlit("#");
    let all = front + "#"@ + comment;
    if i < front.len() {
        assert(all[i] == front[i]);
        assert(front[i] != '\'');
        lemma_comment_found(front, comment, i + 1);
    } else {
        assert(all[i] == '#');
    }
}

/// An entry begins with the name that it imports, whether it is renamed or not.
pub proof fn law_entries_begin_with_their_name(name: Seq<char>, rest: Seq<char>)
    requires
        is_plain(name),
    ensures
        entry_name(name) == name,
        entry_name(name + " as "@ + rest) == name,
{
    lemma_plain(name);
    let s = name + " as "@ + rest;
    reveal_strlit(" as ");
    assert(s[0] == name[0]);
    assert(is_plain_char(name[0]));
    assert(trim_start_spec(s) == s);
    law_words_end_at_white_space(s);
    let n = name.len() as int;
    assert(s[n] == ' ');
    assert(is_space(s[n]));
    if word_len(s) < n {
        assert(s[word_len(s)] == name[word_len(s)]);
        assert(is_plain_char(name[word_len(s)]));
    }
    assert(word_len(s) == n);
    assert(s.take(n) =~= name);
}

proof fn lemma_plain(name: Seq<char>)
    requires
        is_plain(name),
    ensures
        trim_spec(name) == name,
        trim_spec(seq![' '] + name) == name,
        entry_name(name) == name,
        first_word(name) == name,
{
    let n = name.len() as int;
    assert(is_plain_char(name[0]));
    assert(is_plain_char(name[n - 1]));
    assert(trim_start_spec(name) == name);
    assert(trim_end_spec(name) == name);
    let blank = seq![' '];
    lemma_trim_front(blank, name);
    assert forall|i: int| 0 <= i < n implies !is_space(#[trigger] name[i]) by {
        assert(is_plain_char(name[i]));
    }
    lemma_word_whole(name);
    assert(name.take(n) =~= name);
}

// ---------------------------------------------------------------------------
// One line
// ---------------------------------------------------------------------------

proof fn lemma_entries(names: Seq<Seq<char>>, removed: Seq<Seq<char>>, keep_empty: bool)
    requires
        names.len() > 0,
        all_plain(names),
    ensures
        survivors(split_spec(join_spec(names, ", "@), ','), removed, keep_empty) == left_of(
            names,
            removed,
        ),
    decreases names.len(),
{
    reveal(Seq::filter);
    let keep = |n: Seq<char>| !removed.contains(n);
    let last = names.last();
    assert(is_plain(names[names.len() - 1]));
    lemma_plain(last);
    let rest = names.drop_last();
    if names.len() == 1 {
        assert forall|i: int| 0 <= i < last.len() implies last[i] != ',' by {
            assert(is_plain_char(last[i]));
        }
        lemma_index_of_is(last, ',', last.len() as int);
        let fields = split_spec(last, ',');
        assert(fields =~= seq![last]);
        assert(fields.drop_last() =~= Seq::empty());
        assert(survivors(fields.drop_last(), removed, keep_empty) =~= Seq::empty());
        assert(rest =~= Seq::empty());
        assert(rest.filter(keep) =~= Seq::empty());
        assert(join_spec(names, ", "@) == last);
    } else {
        assert forall|i: int| 0 <= i < rest.len() implies is_plain(#[trigger] rest[i]) by {
            assert(rest[i] == names[i]);
        }
        lemma_entries(rest, removed, keep_empty);
        let x = join_spec(rest, ", "@);
        let y = seq![' '] + last;
        reveal_strlit(", ");
        assert(join_spec(names, ", "@) =~= x + seq![','] + y);
        assert forall|i: int| 0 <= i < y.len() implies y[i] != ',' by {
            if i > 0 {
                assert(y[i] == last[i - 1]);
                assert(is_plain_char(last[i - 1]));
            }
        }
        lemma_split_last(x, y, ',');
        let fields = split_spec(x, ',').push(y);
        assert(fields.drop_last() =~= split_spec(x, ','));
        assert(fields.last() == y);
    }
}

proof fn lemma_list(names: Seq<Seq<char>>)
    requires
        names.len() > 0,
        all_plain(names),
    ensures
        ({
            let list = join_spec(names, ", "@);
            &&& list.len() > 0
            &&& !is_space(list.last())
            &&& forall|i: int|
                0 <= i < list.len() ==> is_plain_char(#[trigger] list[i]) || list[i] == ' '
                    || list[i] == ','
        }),
    decreases names.len(),
{
    let last = names.last();
    assert(is_plain(names[names.len() - 1]));
    assert(is_plain_char(last[last.len() - 1]));
    let list = join_spec(names, ", "@);
    if names.len() > 1 {
        let rest = names.drop_last();
        assert forall|i: int| 0 <= i < rest.len() implies is_plain(#[trigger] rest[i]) by {
            assert(rest[i] == names[i]);
        }
        lemma_list(rest);
        reveal_strlit(", ");
        let x = join_spec(rest, ", "@);
        assert(list == x + ", "@ + last);
        assert forall|i: int| 0 <= i < list.len() implies is_plain_char(#[trigger] list[i])
            || list[i] == ' ' || list[i] == ',' by {
            if i < x.len() {
                assert(list[i] == x[i]);
            } else if i >= x.len() + 2 {
                assert(list[i] == last[i - x.len() - 2]);
                assert(is_plain_char(last[i - x.len() - 2]));
            }
        }
    } else {
        assert(list == last);
        assert forall|i: int| 0 <= i < list.len() implies is_plain_char(#[trigger] list[i])
            || list[i] == ' ' || list[i] == ',' by {
            assert(is_plain_char(last[i]));
        }
    }
}

/// The code of `from MODULE import` and what follows it is read as its two parts.
proof fn lemma_from_import(module: Seq<char>, list: Seq<char>)
    requires
        is_plain(module),
    ensures
        from_import("from "@ + module + " import "@ + list) == Some((module, list)),
{
    reveal_strlit("from ");
    reveal_strlit(" import ");
    let code = "from "@ + module + " import "@ + list;
    let s = module + " import "@ + list;
    assert(code.take(5) =~= "from "@);
    assert(code.skip(5) =~= s);
    let k = module.len() as int;
    assert(s.subrange(k, k + 8) =~= " import "@);
    assert(occurs_at(s, " import "@, k));
    assert forall|j: int| 0 <= j < k implies !occurs_at(s, " import "@, j) by {
        if occurs_at(s, " import "@, j) {
            assert(s.subrange(j, j + 8)[0] == s[j]);
            assert(s[j] == module[j]);
            assert(is_plain_char(module[j]));
            assert(is_space(' '));
        }
    }
    lemma_first_unique(s, " import "@, k);
    assert(s.take(k) =~= module);
    assert(s.skip(k + 8) =~= list);
}

/// An import on one line keeps the names that are not removed, in order, behind the same module and
/// with the same indentation. Where none is left it goes, or gives way to `pass` where the block
/// would be empty.
pub proof fn law_names_leave_an_import_line(
    lines: Seq<Seq<char>>,
    at: int,
    indent: Seq<char>,
    module: Seq<char>,
    names: Seq<Seq<char>>,
    blank: Seq<char>,
    removed: Seq<Seq<char>>,
    pass: bool,
    eol: Seq<char>,
)
    requires
        0 <= at < lines.len(),
        is_blank(indent),
        is_blank(blank),
        is_plain(module),
        names.len() > 0,
        all_plain(names),
        lines[at] == indent + ("from "@ + module + " import "@ + join_spec(names, ", "@)) + blank,
    ensures
        ({
            let left = left_of(names, removed);
            let r = new_lines(lines, at, at, removed, pass, eol);
            &&& left.len() > 0 ==> r == Some(
                seq![indent + "from "@ + module + " import "@ + join_spec(left, ", "@) + eol],
            )
            &&& left.len() == 0 && pass ==> r == Some(seq![indent + "pass"@ + eol])
            &&& left.len() == 0 && !pass ==> r == Some(Seq::<Seq<char>>::empty())
        }),
{
    let list = join_spec(names, ", "@);
    let code = "from "@ + module + " import "@ + list;
    let line = lines[at];
    lemma_list(names);
    lemma_code(module, list);
    assert(line =~= indent + (code + blank));
    lemma_trim_front(indent, code + blank);
    assert(indent_of(line) =~= indent);
    law_comments_are_cut_off(code, blank, Seq::empty());
    assert(!occurs(code, "("@)) by {
        reveal_strlit("(");
        if occurs(code, "("@) {
            let i = choose|i: int| occurs_at(code, "("@, i);
            assert(code.subrange(i, i + 1)[0] == code[i]);
        }
    }
    lemma_from_import(module, list);
    lemma_entries(names, removed, true);
}

proof fn lemma_code(module: Seq<char>, list: Seq<char>)
    requires
        is_plain(module),
        list.len() > 0,
        !is_space(list.last()),
        forall|i: int|
            0 <= i < list.len() ==> is_plain_char(#[trigger] list[i]) || list[i] == ' ' || list[i]
                == ',',
    ensures
        ({
            let code = "from "@ + module + " import "@ + list;
            &&& is_bare(code)
            &&& code.len() > 0
            &&& code[0] == 'f'
            &&& !is_space(code.last())
            &&& forall|i: int| 0 <= i < code.len() ==> #[trigger] code[i] != '('
        }),
{
    reveal_strlit("from ");
    reveal_strlit(" import ");
    let code = "from "@ + module + " import "@ + list;
    let a = 5 + module.len() as int;
    assert forall|i: int| 0 <= i < code.len() implies #[trigger] code[i] != '(' && code[i] != '\''
        && code[i] != '"' && code[i] != '#' by {
        if i < 5 {
            assert(code[i] == "from "@[i]);
        } else if i < a {
            assert(code[i] == module[i - 5]);
            assert(is_plain_char(module[i - 5]));
        } else if i < a + 8 {
            assert(code[i] == " import "@[i - a]);
        } else {
            assert(code[i] == list[i - a - 8]);
        }
    }
    assert(code.last() == list.last());
}

// ---------------------------------------------------------------------------
// Several lines
// ---------------------------------------------------------------------------

proof fn lemma_fewer_left(names: Seq<Seq<char>>, removed: Seq<Seq<char>>)
    ensures
        left_of(names, removed).len() <= names.len(),
    decreases names.len(),
{
    reveal(Seq::filter);
    if names.len() > 0 {
        lemma_fewer_left(names.drop_last(), removed);
    }
}

proof fn lemma_all_blank(s: Seq<char>)
    requires
        is_blank(s),
    ensures
        trim_spec(s).len() == 0,
    decreases s.len(),
{
    if s.len() > 0 {
        assert(is_space(s[0]));
        let rest = s.skip(1);
        assert forall|i: int| 0 <= i < rest.len() implies is_space(#[trigger] rest[i]) by {
            assert(rest[i] == s[i + 1]);
        }
        lemma_all_blank(rest);
    }
}

/// A line of code behind white space and before white space is read with the white space before it.
proof fn lemma_code_line(front: Seq<char>, code: Seq<char>, blank: Seq<char>)
    requires
        is_blank(front),
        is_blank(blank),
        is_bare(code),
        code.len() > 0,
        !is_space(code.last()),
    ensures
        code_part(trim_end_spec(front + code + blank)) == front + code,
{
    let s = front + code;
    assert(s.last() == code.last());
    lemma_trim_back(s, blank);
    assert(is_bare(s)) by {
        assert forall|i: int| 0 <= i < s.len() implies #[trigger] s[i] != '\'' && s[i] != '"' && s[i]
            != '#' by {
            if i < front.len() {
                assert(s[i] == front[i]);
                assert(is_space(front[i]));
            } else {
                assert(s[i] == code[i - front.len()]);
            }
        }
    }
    law_comments_are_cut_off(s, Seq::empty(), Seq::empty());
    assert(s + Seq::<char>::empty() =~= s);
}

proof fn lemma_opening_line(indent: Seq<char>, module: Seq<char>, blank: Seq<char>)
    requires
        is_blank(indent),
        is_blank(blank),
        is_plain(module),
    ensures
        names_in(indent + ("from "@ + module + " import "@ + "("@) + blank, true, false).len() == 0,
        is_bare("from "@ + module + " import "@ + "("@),
{
    let code = "from "@ + module + " import "@ + "("@;
    lemma_opening_code(module);
    lemma_code_line(indent, code, blank);
    let s = indent + code;
    let k = s.len() - 1;
    assert(s[k] == '(');
    assert forall|i: int| 0 <= i < k implies s[i] != '(' by {
        if i < indent.len() {
            assert(s[i] == indent[i]);
            assert(is_space(indent[i]));
        } else {
            assert(s[i] == code[i - indent.len()]);
        }
    }
    lemma_index_of_is(s, '(', k);
}

proof fn lemma_opening_code(module: Seq<char>)
    requires
        is_plain(module),
    ensures
        ({
            let code = "from "@ + module + " import "@ + "("@;
            &&& is_bare(code)
            &&& code.len() > 0
            &&& code[0] == 'f'
            &&& code.last() == '('
            &&& forall|i: int| 0 <= i < code.len() - 1 ==> #[trigger] code[i] != '('
        }),
{
    reveal_strlit("from ");
    reveal_strlit(" import ");
    reveal_strlit("(");
    let code = "from "@ + module + " import "@ + "("@;
    let a = 5 + module.len() as int;
    assert forall|i: int| 0 <= i < code.len() implies (i < code.len() - 1 ==> #[trigger] code[i]
        != '(') && code[i] != '\'' && code[i] != '"' && code[i] != '#' by {
        if i < 5 {
            assert(code[i] == "from "@[i]);
        } else if i < a {
            assert(code[i] == module[i - 5]);
            assert(is_plain_char(module[i - 5]));
        } else if i < a + 8 {
            assert(code[i] == " import "@[i - a]);
        } else {
            assert(code[i] == "("@[0]);
        }
    }
}

proof fn lemma_name_line(inner: Seq<char>, name: Seq<char>, blank: Seq<char>)
    requires
        is_blank(inner),
        is_blank(blank),
        is_plain(name),
    ensures
        names_in(inner + (name + ","@) + blank, false, false) == inner + name + seq![','],
{
    reveal_strlit(",");
    let code = name + ","@;
    assert(is_bare(code)) by {
        assert forall|i: int| 0 <= i < code.len() implies #[trigger] code[i] != '\'' && code[i]
            != '"' && code[i] != '#' by {
            if i < name.len() {
                assert(code[i] == name[i]);
                assert(is_plain_char(name[i]));
            }
        }
    }
    lemma_code_line(inner, code, blank);
    let s = inner + code;
    assert(s.subrange(0, s.len() as int) =~= s);
    assert(s =~= inner + name + seq![',']);
}

proof fn lemma_closing_line(indent: Seq<char>, blank: Seq<char>)
    requires
        is_blank(indent),
        is_blank(blank),
    ensures
        names_in(indent + ")"@ + blank, false, true) == indent,
{
    reveal_strlit(")");
    lemma_code_line(indent, ")"@, blank);
    let s = indent + ")"@;
    assert(s.last() == ')');
    assert(after_last(s, ')') == s.len());
    assert(s.subrange(0, s.len() - 1) =~= indent);
}

/// Whether the lines from `at` on are an import in parentheses, with one name on each line.
pub open spec fn is_block(
    lines: Seq<Seq<char>>,
    at: int,
    indent: Seq<char>,
    inner: Seq<char>,
    module: Seq<char>,
    names: Seq<Seq<char>>,
    blank: Seq<char>,
) -> bool {
    &&& 0 <= at
    &&& at + names.len() + 1 < lines.len()
    &&& is_blank(indent)
    &&& is_blank(inner)
    &&& is_blank(blank)
    &&& is_plain(module)
    &&& all_plain(names)
    &&& lines[at] == indent + ("from "@ + module + " import "@ + "("@) + blank
    &&& forall|i: int|
        0 <= i < names.len() ==> lines[at + 1 + i] == inner + ((#[trigger] names[i]) + ","@) + blank
    &&& lines[at + 1 + names.len()] == indent + ")"@ + blank
}

/// The names on the first `k` lines below the opening one, as they are read.
proof fn lemma_names_to(
    lines: Seq<Seq<char>>,
    at: int,
    indent: Seq<char>,
    inner: Seq<char>,
    module: Seq<char>,
    names: Seq<Seq<char>>,
    blank: Seq<char>,
    removed: Seq<Seq<char>>,
    k: int,
) -> (x: Seq<char>)
    requires
        is_block(lines, at, indent, inner, module, names, blank),
        0 <= k <= names.len(),
    ensures
        names_to(lines, at, at + 1 + names.len(), at + 1 + k) == x + seq![','],
        survivors(split_spec(x, ','), removed, false) == left_of(names.take(k), removed),
    decreases k,
{
    reveal(Seq::filter);
    let end = at + 1 + names.len();
    if k == 0 {
        lemma_opening_line(indent, module, blank);
        let none = Seq::<char>::empty();
        assert(names_to(lines, at, end, at) =~= none);
        assert(names_in(lines[at], true, false) =~= none);
        assert(names_to(lines, at, end, at + 1) =~= none + seq![',']);
        lemma_index_of_is(none, ',', 0);
        let fields = split_spec(none, ',');
        assert(fields =~= seq![none]);
        law_entries_stay_on_their_own_account(Seq::empty(), fields, removed, false);
        lemma_all_blank(none);
        assert(survivors(fields, removed, false) =~= Seq::empty());
        assert(names.take(0) =~= Seq::empty());
        assert(left_of(names.take(0), removed) =~= Seq::empty());
        none
    } else {
        let y = lemma_names_to(
            lines,
            at,
            indent,
            inner,
            module,
            names,
            blank,
            removed,
            k - 1,
        );
        let name = names[k - 1];
        assert(is_plain(name));
        lemma_plain(name);
        assert(lines[at + 1 + (k - 1)] == inner + (name + ","@) + blank);
        lemma_name_line(inner, name, blank);
        let field = inner + name;
        let x = y + seq![','] + field + seq![','];
        assert(names_to(lines, at, end, at + 1 + k) =~= x + seq![',']);
        assert forall|i: int| 0 <= i < field.len() implies field[i] != ',' by {
            if i < inner.len() {
                assert(field[i] == inner[i]);
                assert(is_space(inner[i]));
            } else {
                assert(field[i] == name[i - inner.len()]);
                assert(is_plain_char(name[i - inner.len()]));
            }
        }
        let none = Seq::<char>::empty();
        let z = y + seq![','] + field;
        lemma_split_last(y, field, ',');
        assert(x =~= z + seq![','] + none);
        lemma_split_last(z, none, ',');
        let fields = split_spec(y, ',') + seq![field] + seq![none];
        assert(split_spec(x, ',') =~= fields);
        law_entries_stay_on_their_own_account(split_spec(y, ','), seq![field], removed, false);
        law_entries_stay_on_their_own_account(
            split_spec(y, ',') + seq![field],
            seq![none],
            removed,
            false,
        );
        assert(is_plain_char(name[0]));
        lemma_trim_front(inner, name);
        assert(trim_spec(field) == name);
        lemma_all_blank(none);
        let front = names.take(k - 1);
        assert(names.take(k).drop_last() =~= front);
        assert(names.take(k).last() == name);
        assert(survivors(fields, removed, false) =~= left_of(names.take(k), removed));
        x
    }
}

/// An import in parentheses, one name on each line, keeps the names that are not removed, in order:
/// in parentheses where several are left, on one line where one is, and not at all where none is.
pub proof fn law_names_leave_an_import_block(
    lines: Seq<Seq<char>>,
    at: int,
    indent: Seq<char>,
    inner: Seq<char>,
    module: Seq<char>,
    names: Seq<Seq<char>>,
    blank: Seq<char>,
    removed: Seq<Seq<char>>,
    pass: bool,
    eol: Seq<char>,
)
    requires
        is_block(lines, at, indent, inner, module, names, blank),
    ensures
        ({
            let left = left_of(names, removed);
            let r = new_lines(lines, at, at + 1 + names.len(), removed, pass, eol);
            &&& left.len() > 1 ==> r == Some(
                seq![indent + "from "@ + module + " import ("@ + eol] + Seq::new(
                    left.len(),
                    |i: int| indent + "    "@ + left[i] + ","@ + eol,
                ) + seq![indent + ")"@ + eol],
            )
            &&& left.len() == 1 ==> r == Some(
                seq![indent + "from "@ + module + " import "@ + left[0] + eol],
            )
            &&& left.len() == 0 && pass ==> r == Some(seq![indent + "pass"@ + eol])
            &&& left.len() == 0 && !pass ==> r == Some(Seq::<Seq<char>>::empty())
        }),
{
    let n = names.len() as int;
    let end = at + 1 + n;
    let left = left_of(names, removed);
    let x = lemma_names_to(lines, at, indent, inner, module, names, blank, removed, n);
    assert(names.take(n) =~= names);
    lemma_closing_line(indent, blank);
    assert(names_between(lines, at, end) =~= x + seq![','] + indent);
    assert forall|i: int| 0 <= i < indent.len() implies indent[i] != ',' by {
        assert(is_space(indent[i]));
    }
    lemma_split_last(x, indent, ',');
    lemma_all_blank(indent);
    let fields = split_spec(x, ',').push(indent);
    assert(fields.drop_last() =~= split_spec(x, ','));
    assert(survivors(fields, removed, false) == left);
    lemma_fewer_left(names, removed);
    let code = "from "@ + module + " import "@ + "("@;
    lemma_opening_code(module);
    assert(lines[at] =~= indent + (code + blank));
    lemma_trim_front(indent, code + blank);
    assert(indent_of(lines[at]) =~= indent);
    law_comments_are_cut_off(code, blank, Seq::empty());
    lemma_from_import(module, "("@);
    reveal_strlit("(");
    assert(code.subrange(code.len() - 1, code.len() as int) =~= "("@);
    assert(occurs_at(code, "("@, code.len() - 1));
    if left.len() > 1 {
        let r = new_lines(lines, at, end, removed, pass, eol)->0;
        assert(r =~= seq![indent + "from "@ + module + " import ("@ + eol] + Seq::new(
            left.len(),
            |i: int| indent + "    "@ + left[i] + ","@ + eol,
        ) + seq![indent + ")"@ + eol]);
    }
}

} // verus!
