//! What the command line changes in the configuration.
use crate::cli::CheckArgs;
use crate::config::Config;
use crate::split::{split, split_spec};
use crate::text::{chars, eq, find_char, index_of, part, string, strs, trim, trim_spec};
use vstd::prelude::*;
use vstd::string::*;

verus! {

// ---------------------------------------------------------------------------
// Ignores for some files
// ---------------------------------------------------------------------------

/// A glob of files with the codes that are not reported there.
pub open spec fn ignore_views(v: Seq<(String, Vec<String>)>) -> Seq<(Seq<char>, Seq<Seq<char>>)> {
    v.map_values(|x: (String, Vec<String>)| (x.0@, strs(x.1@)))
}

/// The pieces that hold something, without the space around them.
pub open spec fn trimmed(pieces: Seq<Seq<char>>) -> Seq<Seq<char>>
    decreases pieces.len(),
{
    if pieces.len() == 0 {
        Seq::empty()
    } else {
        let before = trimmed(pieces.drop_last());
        let last = trim_spec(pieces.last());
        if last.len() == 0 {
            before
        } else {
            before.push(last)
        }
    }
}

/// What `GLOB:CODE,...` says; nothing where there is no colon, no glob or no code.
pub open spec fn ignore_of(spec_text: Seq<char>) -> Option<(Seq<char>, Seq<Seq<char>>)> {
    let k = index_of(spec_text, ':');
    if k >= spec_text.len() {
        None
    } else {
        let glob = trim_spec(spec_text.take(k));
        let codes = trimmed(split_spec(spec_text.skip(k + 1), ','));
        if glob.len() == 0 || codes.len() == 0 {
            None
        } else {
            Some((glob, codes))
        }
    }
}

/// A list of ignores with more codes for a glob.
pub open spec fn with_ignore(
    v: Seq<(Seq<char>, Seq<Seq<char>>)>,
    glob: Seq<char>,
    codes: Seq<Seq<char>>,
) -> Seq<(Seq<char>, Seq<Seq<char>>)>
    decreases v.len(),
{
    if v.len() == 0 {
        seq![(glob, codes)]
    } else if v[0].0 == glob {
        v.update(0, (glob, v[0].1 + codes))
    } else {
        seq![v[0]] + with_ignore(v.skip(1), glob, codes)
    }
}

/// A list of ignores with those that several texts say.
pub open spec fn with_ignores(
    v: Seq<(Seq<char>, Seq<Seq<char>>)>,
    specs: Seq<Seq<char>>,
) -> Seq<(Seq<char>, Seq<Seq<char>>)>
    decreases specs.len(),
{
    if specs.len() == 0 {
        v
    } else {
        let before = with_ignores(v, specs.drop_last());
        match ignore_of(specs.last()) {
            Some((glob, codes)) => with_ignore(before, glob, codes),
            None => before,
        }
    }
}

fn read_codes(text: &[char]) -> (r: Vec<String>)
    ensures
        strs(r@) == trimmed(split_spec(text@, ',')),
{
    let pieces = split(text, ',');
    let ghost all = split_spec(text@, ',');
    let mut out: Vec<String> = Vec::new();
    let mut i: usize = 0;
    assert(strs(out@) =~= Seq::empty());
    assert(all.take(0) =~= Seq::empty());
    assert(strs(pieces@).len() == pieces@.len());
    while i < pieces.len()
        invariant
            i <= pieces@.len(),
            strs(pieces@) == all,
            all.len() == pieces@.len(),
            strs(out@) == trimmed(all.take(i as int)),
        decreases pieces@.len() - i,
    {
        assert(all.take(i + 1).drop_last() =~= all.take(i as int));
        assert(all.take(i + 1).last() == strs(pieces@)[i as int]);
        let piece = chars(pieces[i].as_str());
        let code = trim(piece.as_slice());
        if code.len() > 0 {
            let ghost before = out@;
            out.push(string(code));
            assert(strs(out@) =~= strs(before).push(code@));
        }
        i += 1;
    }
    assert(all.take(all.len() as int) =~= all);
    out
}

fn read_ignore(spec_text: &str) -> (r: Option<(String, Vec<String>)>)
    ensures
        match r {
            Some((glob, codes)) => ignore_of(spec_text@) == Some((glob@, strs(codes@))),
            None => ignore_of(spec_text@) is None,
        },
{
    let text = chars(spec_text);
    let k: usize = find_char(text.as_slice(), ':');
    if k >= text.len() {
        return None;
    }
    let head = part(text.as_slice(), 0, k);
    let tail = part(text.as_slice(), k + 1, text.len());
    assert(head@ =~= spec_text@.take(k as int));
    assert(tail@ =~= spec_text@.skip(k + 1));
    let glob = trim(head);
    let codes = read_codes(tail);
    assert(strs(codes@).len() == codes@.len());
    if glob.len() == 0 || codes.len() == 0 {
        return None;
    }
    Some((string(glob), codes))
}

proof fn lemma_with_ignore(
    v: Seq<(Seq<char>, Seq<Seq<char>>)>,
    glob: Seq<char>,
    codes: Seq<Seq<char>>,
    i: int,
)
    requires
        0 <= i <= v.len(),
        forall|j: int| 0 <= j < i ==> (#[trigger] v[j]).0 != glob,
        i == v.len() || v[i].0 == glob,
    ensures
        with_ignore(v, glob, codes) == if i == v.len() {
            v.push((glob, codes))
        } else {
            v.update(i, (glob, v[i].1 + codes))
        },
    decreases v.len(),
{
    if v.len() == 0 {
        assert(v.push((glob, codes)) =~= seq![(glob, codes)]);
    } else if i > 0 {
        let rest = v.skip(1);
        assert forall|j: int| 0 <= j < i - 1 implies (#[trigger] rest[j]).0 != glob by {
            assert(v[j + 1].0 != glob);
        }
        assert(v[0].0 != glob);
        lemma_with_ignore(rest, glob, codes, i - 1);
        if i == v.len() {
            assert(seq![v[0]] + rest.push((glob, codes)) =~= v.push((glob, codes)));
        } else {
            assert(seq![v[0]] + rest.update(i - 1, (glob, rest[i - 1].1 + codes)) =~= v.update(
                i,
                (glob, v[i].1 + codes),
            ));
        }
    }
}

/// Adds codes for a glob.
fn add_ignore(v: &mut Vec<(String, Vec<String>)>, glob: String, codes: Vec<String>)
    ensures
        ignore_views(final(v)@) == with_ignore(ignore_views(old(v)@), glob@, strs(codes@)),
{
    let ghost before = ignore_views(v@);
    let ghost more = strs(codes@);
    let mut i: usize = 0;
    while i < v.len()
        invariant
            i <= v@.len(),
            v@ == old(v)@,
            before == ignore_views(v@),
            more == strs(codes@),
            before == ignore_views(old(v)@),
            forall|j: int| 0 <= j < i ==> (#[trigger] before[j]).0 != glob@,
        decreases v@.len() - i,
    {
        assert(before[i as int] == (v@[i as int].0@, strs(v@[i as int].1@)));
        if eq(v[i].0.as_str(), glob.as_str()) {
            proof {
                lemma_with_ignore(before, glob@, more, i as int);
            }
            let ghost prior = v@;
            let (name, mut list) = v.remove(i);
            let ghost first = list@;
            let mut codes = codes;
            let ghost second = codes@;
            list.append(&mut codes);
            assert(strs(list@) =~= strs(first) + strs(second));
            v.insert(i, (name, list));
            assert(ignore_views(v@) =~= before.update(
                i as int,
                (glob@, before[i as int].1 + more),
            ));
            return;
        }
        i += 1;
    }
    proof {
        lemma_with_ignore(before, glob@, more, before.len() as int);
    }
    let ghost prior = v@;
    v.push((glob, codes));
    assert(ignore_views(v@) =~= before.push((glob@, more)));
}

/// Adds the ignores that several texts say.
pub fn extend_per_file_ignores(v: &mut Vec<(String, Vec<String>)>, specs: &Vec<String>)
    ensures
        ignore_views(final(v)@) == with_ignores(ignore_views(old(v)@), strs(specs@)),
{
    let ghost start = ignore_views(v@);
    let ghost all = strs(specs@);
    let mut i: usize = 0;
    assert(all.take(0) =~= Seq::empty());
    while i < specs.len()
        invariant
            i <= specs@.len(),
            all == strs(specs@),
            start == ignore_views(old(v)@),
            ignore_views(v@) == with_ignores(start, all.take(i as int)),
        decreases specs@.len() - i,
    {
        assert(all.take(i + 1).drop_last() =~= all.take(i as int));
        assert(all.take(i + 1).last() == specs@[i as int]@);
        match read_ignore(specs[i].as_str()) {
            Some((glob, codes)) => add_ignore(v, glob, codes),
            None => {},
        }
        i += 1;
    }
    assert(all.take(all.len() as int) =~= all);
}

/// The ignores that several texts say.
pub fn parse_per_file_ignores(specs: &Vec<String>) -> (r: Vec<(String, Vec<String>)>)
    ensures
        ignore_views(r@) == with_ignores(Seq::empty(), strs(specs@)),
{
    let mut out: Vec<(String, Vec<String>)> = Vec::new();
    assert(ignore_views(out@) =~= Seq::empty());
    extend_per_file_ignores(&mut out, specs);
    out
}

// ---------------------------------------------------------------------------
// All that the command line changes
// ---------------------------------------------------------------------------

fn push_texts(out: &mut Vec<String>, more: &Vec<String>)
    ensures
        strs(final(out)@) == strs(old(out)@) + strs(more@),
{
    let ghost start = strs(out@);
    let ghost all = strs(more@);
    let mut i: usize = 0;
    assert(start + all.take(0) =~= start);
    while i < more.len()
        invariant
            i <= more@.len(),
            start == strs(old(out)@),
            all == strs(more@),
            strs(out@) == start + all.take(i as int),
        decreases more@.len() - i,
    {
        let ghost before = out@;
        out.push(more[i].clone());
        assert(strs(out@) =~= strs(before).push(more@[i as int]@));
        assert(start + all.take(i + 1) =~= (start + all.take(i as int)).push(all[i as int]));
        i += 1;
    }
    assert(all.take(all.len() as int) =~= all);
}

/// What is selected: what is given takes the place of what is configured, and more is added.
pub open spec fn selected(
    configured: Seq<Seq<char>>,
    given: Seq<Seq<char>>,
    more: Seq<Seq<char>>,
) -> Seq<Seq<char>> {
    (if given.len() > 0 {
        given
    } else {
        configured
    }) + more
}

/// What is ignored in some files: what is given takes the place of what is configured, and more
/// is added to it.
pub open spec fn file_ignores(
    configured: Seq<(Seq<char>, Seq<Seq<char>>)>,
    given: Seq<Seq<char>>,
    more: Seq<Seq<char>>,
) -> Seq<(Seq<char>, Seq<Seq<char>>)> {
    with_ignores(
        if given.len() > 0 {
            with_ignores(Seq::empty(), given)
        } else {
            configured
        },
        more,
    )
}

/// Changes the selection of rules as the command line says.
pub fn apply_cli_overrides(
    config: &mut Config,
    select: &Vec<String>,
    ignore: &Vec<String>,
    extend_select: &Vec<String>,
    extend_ignore: &Vec<String>,
    per_file_ignores: &Vec<String>,
    extend_ignores: &Vec<String>,
)
    ensures
        strs(final(config).lint.select@) == selected(
            strs(old(config).lint.select@),
            strs(select@),
            strs(extend_select@),
        ),
        strs(final(config).lint.ignore@) == strs(old(config).lint.ignore@) + strs(ignore@) + strs(
            extend_ignore@,
        ),
        ignore_views(final(config).lint.per_file_ignores@) == file_ignores(
            ignore_views(old(config).lint.per_file_ignores@),
            strs(per_file_ignores@),
            strs(extend_ignores@),
        ),
        final(config).lint.level == old(config).lint.level,
        final(config).lint.noqa_aliases == old(config).lint.noqa_aliases,
        final(config).lint.rules == old(config).lint.rules,
        final(config).cache_dir == old(config).cache_dir,
        final(config).workers == old(config).workers,
        final(config).python == old(config).python,
        final(config).config_dir == old(config).config_dir,
        final(config).ignore_noqa == old(config).ignore_noqa,
        final(config).src == old(config).src,
        final(config).cwd == old(config).cwd,
{
    assert(strs(select@).len() == select@.len());
    assert(strs(per_file_ignores@).len() == per_file_ignores@.len());
    if select.len() > 0 {
        let mut chosen: Vec<String> = Vec::new();
        push_texts(&mut chosen, select);
        assert(strs(chosen@) =~= strs(select@));
        config.lint.select = chosen;
    }
    push_texts(&mut config.lint.select, extend_select);
    push_texts(&mut config.lint.ignore, ignore);
    push_texts(&mut config.lint.ignore, extend_ignore);
    if per_file_ignores.len() > 0 {
        config.lint.per_file_ignores = parse_per_file_ignores(per_file_ignores);
    }
    extend_per_file_ignores(&mut config.lint.per_file_ignores, extend_ignores);
}

/// Changes the configuration as the options of `check` say.
pub fn configure(config: &mut Config, args: &CheckArgs)
    ensures
        strs(final(config).lint.select@) == selected(
            strs(old(config).lint.select@),
            strs(args.common.select@),
            strs(args.common.extend_select@),
        ),
        strs(final(config).lint.ignore@) == strs(old(config).lint.ignore@) + strs(
            args.common.ignore@,
        ) + strs(args.common.extend_ignore@),
        ignore_views(final(config).lint.per_file_ignores@) == file_ignores(
            ignore_views(old(config).lint.per_file_ignores@),
            strs(args.common.per_file_ignores@),
            strs(args.common.extend_per_file_ignores@),
        ),
        final(config).ignore_noqa == args.ignore_noqa,
        final(config).cache_dir@ == match args.cache_dir {
            Some(dir) => dir@,
            None => old(config).cache_dir@,
        },
        final(config).lint.level == old(config).lint.level,
        final(config).lint.noqa_aliases == old(config).lint.noqa_aliases,
        final(config).lint.rules == old(config).lint.rules,
        final(config).workers == old(config).workers,
        final(config).python == old(config).python,
        final(config).config_dir == old(config).config_dir,
        final(config).src == old(config).src,
        final(config).cwd == old(config).cwd,
{
    config.ignore_noqa = args.ignore_noqa;
    match &args.cache_dir {
        Some(dir) => {
            config.cache_dir = dir.clone();
        },
        None => {},
    }
    apply_cli_overrides(
        config,
        &args.common.select,
        &args.common.ignore,
        &args.common.extend_select,
        &args.common.extend_ignore,
        &args.common.per_file_ignores,
        &args.common.extend_per_file_ignores,
    );
}

// ---------------------------------------------------------------------------
// Laws
// ---------------------------------------------------------------------------

/// A rule that the command line ignores does not run, whatever is configured or selected.
pub proof fn law_ignored_on_the_command_line(
    configured: Seq<Seq<char>>,
    ignore: Seq<Seq<char>>,
    more: Seq<Seq<char>>,
    select: Seq<Seq<char>>,
    code: Seq<char>,
)
    requires
        crate::config::any_prefix(ignore, code) || crate::config::any_prefix(more, code),
    ensures
        !crate::config::enabled(select, configured + ignore + more, code),
{
    let all = configured + ignore + more;
    if crate::config::any_prefix(ignore, code) {
        let i = choose|i: int|
            0 <= i < ignore.len() && (#[trigger] ignore[i]).is_prefix_of(code);
        assert(all[configured.len() + i] == ignore[i]);
    } else {
        let i = choose|i: int| 0 <= i < more.len() && (#[trigger] more[i]).is_prefix_of(code);
        assert(all[configured.len() + ignore.len() + i] == more[i]);
    }
}

/// What is selected on the command line counts in place of what is configured.
pub proof fn law_select_replaces(
    a: Seq<Seq<char>>,
    b: Seq<Seq<char>>,
    given: Seq<Seq<char>>,
    more: Seq<Seq<char>>,
)
    requires
        given.len() > 0,
    ensures
        selected(a, given, more) == selected(b, given, more),
{
}

} // verus!
