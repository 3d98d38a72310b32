//! What a configuration file says, and which one counts.
use crate::config::{config_file_of, project_python, DirFacts, VenvFacts};
use crate::config_read::{
    default_lint, default_settings, exceptions_in, level_field, lint_field, lint_in, lists_field,
    lists_in, section_in, settings_from, settings_in, src_from, table_in, tables_in, texts_field,
    texts_in, workers_field, TableView,
};
use crate::document::{all_texts, digits_value, list_field, number_value, some_texts, text_list_of};
use crate::json::{member_of, JsonView};
use crate::paths::joined;
use crate::split::decimal;
use crate::text_laws::value_of;
use crate::types::Level;
use vstd::prelude::*;

verus! {

// ---------------------------------------------------------------------------
// Files
// ---------------------------------------------------------------------------

/// Whether a directory has nothing that ends the search for a configuration file.
pub open spec fn is_passed_by(dir: DirFacts) -> bool {
    !dir.has_konform && !dir.has_pyproject && !dir.has_git
}

/// The first directory upwards that has a configuration file or a repository decides; `konform.toml`
/// comes before `pyproject.toml`.
pub proof fn law_the_nearest_configuration_counts(dirs: Seq<DirFacts>, k: int)
    requires
        0 <= k < dirs.len(),
        forall|i: int| 0 <= i < k ==> is_passed_by(#[trigger] dirs[i]),
        !is_passed_by(dirs[k]),
    ensures
        dirs[k].has_konform ==> config_file_of(dirs) == Some(
            joined(dirs[k].path@, "konform.toml"@),
        ),
        !dirs[k].has_konform && dirs[k].has_pyproject ==> config_file_of(dirs) == Some(
            joined(dirs[k].path@, "pyproject.toml"@),
        ),
        !dirs[k].has_konform && !dirs[k].has_pyproject ==> config_file_of(dirs) is None,
    decreases dirs.len(),
{
    if k > 0 {
        let rest = dirs.skip(1);
        assert(is_passed_by(dirs[0]));
        assert(rest[k - 1] == dirs[k]);
        assert forall|i: int| 0 <= i < k - 1 implies is_passed_by(#[trigger] rest[i]) by {
            assert(rest[i] == dirs[i + 1]);
        }
        law_the_nearest_configuration_counts(rest, k - 1);
    }
}

/// Without a configuration file in any of the directories there is none.
pub proof fn law_no_configuration_is_made_up(dirs: Seq<DirFacts>)
    requires
        forall|i: int|
            0 <= i < dirs.len() ==> !(#[trigger] dirs[i]).has_konform && !dirs[i].has_pyproject,
    ensures
        config_file_of(dirs) is None,
    decreases dirs.len(),
{
    if dirs.len() > 0 {
        let rest = dirs.skip(1);
        assert(!dirs[0].has_konform && !dirs[0].has_pyproject);
        assert forall|i: int| 0 <= i < rest.len() implies !(#[trigger] rest[i]).has_konform
            && !rest[i].has_pyproject by {
            assert(rest[i] == dirs[i + 1]);
        }
        law_no_configuration_is_made_up(rest);
    }
}

/// The interpreter is that of `.venv`, or else of `venv`, or else of `.env`, or else the one on the
/// search path.
pub proof fn law_virtual_environments_come_first(root: Seq<char>, facts: VenvFacts)
    ensures
        facts.dot_venv ==> project_python(root, false, facts) == joined(
            joined(joined(root, ".venv"@), "bin"@),
            "python3"@,
        ),
        !facts.dot_venv && facts.venv ==> project_python(root, false, facts) == joined(
            joined(joined(root, "venv"@), "bin"@),
            "python3"@,
        ),
        !facts.dot_venv && !facts.venv && facts.dot_env ==> project_python(root, false, facts)
            == joined(joined(joined(root, ".env"@), "bin"@), "python3"@),
        !facts.dot_venv && !facts.venv && !facts.dot_env ==> project_python(root, false, facts)
            == "python3"@,
        facts.dot_venv ==> project_python(root, true, facts) == joined(
            joined(joined(root, ".venv"@), "Scripts"@),
            "python.exe"@,
        ),
        !facts.dot_venv && facts.venv ==> project_python(root, true, facts) == joined(
            joined(joined(root, "venv"@), "Scripts"@),
            "python.exe"@,
        ),
        !facts.dot_venv && !facts.venv && facts.dot_env ==> project_python(root, true, facts)
            == joined(joined(joined(root, ".env"@), "Scripts"@), "python.exe"@),
        !facts.dot_venv && !facts.venv && !facts.dot_env ==> project_python(root, true, facts)
            == "python.exe"@,
{
}

// ---------------------------------------------------------------------------
// Values
// ---------------------------------------------------------------------------

/// The first field with a key has its value.
pub proof fn law_the_first_field_counts(
    v: Seq<(Seq<char>, JsonView)>,
    key: Seq<char>,
    k: int,
)
    requires
        0 <= k < v.len(),
        v[k].0 == key,
        forall|i: int| 0 <= i < k ==> (#[trigger] v[i]).0 != key,
    ensures
        member_of(JsonView::Object(v), key) == Some(v[k].1),
    decreases v.len(),
{
    if k > 0 {
        let rest = v.skip(1);
        assert(v[0].0 != key);
        assert(rest[k - 1] == v[k]);
        assert forall|i: int| 0 <= i < k - 1 implies (#[trigger] rest[i]).0 != key by {
            assert(rest[i] == v[i + 1]);
        }
        law_the_first_field_counts(rest, key, k - 1);
    }
}

/// A key that no field has is absent.
pub proof fn law_other_keys_are_absent(v: Seq<(Seq<char>, JsonView)>, key: Seq<char>)
    requires
        forall|i: int| 0 <= i < v.len() ==> (#[trigger] v[i]).0 != key,
    ensures
        member_of(JsonView::Object(v), key) is None,
    decreases v.len(),
{
    if v.len() > 0 {
        let rest = v.skip(1);
        assert(v[0].0 != key);
        assert forall|i: int| 0 <= i < rest.len() implies (#[trigger] rest[i]).0 != key by {
            assert(rest[i] == v[i + 1]);
        }
        law_other_keys_are_absent(rest, key);
    }
}

/// A list of texts is read whole, each text in its place, or not at all where one of its values is
/// no text.
pub proof fn law_lists_are_read_whole(v: Seq<JsonView>, i: int)
    requires
        0 <= i < v.len(),
    ensures
        all_texts(v) is Some <==> forall|j: int| 0 <= j < v.len() ==> (#[trigger] v[j]) is Text,
        all_texts(v) is Some ==> all_texts(v)->0.len() == v.len() && v[i] == JsonView::Text(
            all_texts(v)->0[i],
        ),
    decreases v.len(),
{
    let rest = v.drop_last();
    if rest.len() > 0 {
        law_lists_are_read_whole(
            rest,
            if i < rest.len() {
                i
            } else {
                0
            },
        );
    } else {
        assert(all_texts(rest) == Some(Seq::<Seq<char>>::empty()));
    }
    if all_texts(v) is Some {
        assert forall|j: int| 0 <= j < v.len() implies (#[trigger] v[j]) is Text by {
            if j < rest.len() {
                assert(rest[j] == v[j]);
            }
        }
    }
    if forall|j: int| 0 <= j < v.len() ==> (#[trigger] v[j]) is Text {
        assert(v[v.len() - 1] is Text);
        assert forall|j: int| 0 <= j < rest.len() implies (#[trigger] rest[j]) is Text by {
            assert(rest[j] == v[j]);
        }
        assert(all_texts(rest) is Some);
    }
}

/// From a list that is read loosely, the texts are taken one by one and all else is left out.
pub proof fn law_texts_are_taken_one_by_one(a: Seq<JsonView>, b: Seq<JsonView>, t: Seq<char>)
    ensures
        some_texts(a + b) == some_texts(a) + some_texts(b),
        some_texts(seq![JsonView::Text(t)]) == seq![t],
        a.len() == 1 && !(a[0] is Text) ==> some_texts(a).len() == 0,
    decreases b.len(),
{
    let all = a + b;
    let one = seq![JsonView::Text(t)];
    assert(one.drop_last() =~= Seq::empty());
    assert(some_texts(one.drop_last()) =~= Seq::empty());
    assert(some_texts(one) =~= seq![t]);
    if a.len() == 1 {
        assert(a.drop_last() =~= Seq::empty());
        assert(some_texts(a.drop_last()) =~= Seq::empty());
    }
    if b.len() == 0 {
        assert(all =~= a);
        assert(some_texts(a) + some_texts(b) =~= some_texts(a));
    } else {
        let rest = b.drop_last();
        law_texts_are_taken_one_by_one(a, rest, t);
        assert(all.drop_last() =~= a + rest);
        assert(all.last() == b.last());
        if b.last() is Text {
            assert((some_texts(a) + some_texts(rest)).push(b.last()->Text_0) =~= some_texts(a)
                + some_texts(rest).push(b.last()->Text_0));
        }
    }
}

/// A number that is written in decimal is read as that number, where it is not too large.
pub proof fn law_written_numbers_are_read(n: nat)
    ensures
        number_value(decimal(n)) == if n <= usize::MAX {
            Some(n)
        } else {
            None
        },
{
    crate::text_laws::law_decimals_stand_for_their_number(n);
    lemma_digits(decimal(n));
}

/// Nothing but digits is a number.
pub proof fn law_only_digits_are_numbers(s: Seq<char>, i: int)
    requires
        0 <= i < s.len(),
        !('0' <= s[i] <= '9'),
    ensures
        number_value(s) is None,
        number_value(Seq::empty()) is None,
{
    lemma_no_digits(s, i);
}

proof fn lemma_no_digits(s: Seq<char>, i: int)
    requires
        0 <= i < s.len(),
        !('0' <= s[i] <= '9'),
    ensures
        digits_value(s) is None,
    decreases s.len(),
{
    if i < s.len() - 1 {
        assert(s.drop_last()[i] == s[i]);
        lemma_no_digits(s.drop_last(), i);
    }
}

proof fn lemma_digits(s: Seq<char>)
    requires
        forall|i: int| 0 <= i < s.len() ==> '0' <= #[trigger] s[i] <= '9',
    ensures
        digits_value(s) is Some,
        digits_value(s)->0 == value_of(s),
    decreases s.len(),
{
    if s.len() > 0 {
        assert('0' <= s[s.len() - 1] <= '9');
        assert forall|i: int| 0 <= i < s.drop_last().len() implies '0' <= #[trigger] s.drop_last()[i]
            <= '9' by {
            assert(s.drop_last()[i] == s[i]);
        }
        lemma_digits(s.drop_last());
    }
}

// ---------------------------------------------------------------------------
// The `lint` table
// ---------------------------------------------------------------------------

/// The level is the one that is named, exactly as it is written; without one it is that of an
/// error, and a wrong one spoils the table.
pub proof fn law_levels_are_named_exactly(j: JsonView, t: Seq<char>)
    ensures
        member_of(j, "level"@) == Some(JsonView::Text("warning"@)) ==> level_field(j) == Some(
            Level::Warning,
        ),
        member_of(j, "level"@) == Some(JsonView::Text("error"@)) ==> level_field(j) == Some(
            Level::Error,
        ),
        member_of(j, "level"@) is None ==> level_field(j) == Some(Level::Error),
        member_of(j, "level"@) == Some(JsonView::Text(t)) && t != "warning"@ && t != "error"@
            ==> level_field(j) is None,
        member_of(j, "level"@) is Some && !(member_of(j, "level"@)->0 is Text) && !(member_of(
            j,
            "level"@,
        )->0 is Null) ==> level_field(j) is None,
{
    reveal_strlit("warning");
    reveal_strlit("error");
    assert("warning"@.len() != "error"@.len());
}

/// Each setting of a `lint` table that can be read has what its field says, and an absent one is
/// empty; where one field cannot be read, the table cannot.
pub proof fn law_lint_settings_are_read(j: JsonView, v: Seq<JsonView>)
    requires
        j is Object,
    ensures
        lint_in(j) is Some <==> list_field(j, "select"@) is Some && list_field(j, "ignore"@) is Some
            && level_field(j) is Some && lists_field(j, "per-file-ignores"@) is Some
            && texts_field(j, "noqa-aliases"@) is Some,
        lint_in(j) is Some ==> ({
            let l = lint_in(j)->0;
            &&& Some(l.select) == list_field(j, "select"@)
            &&& Some(l.ignore) == list_field(j, "ignore"@)
            &&& Some(l.level) == level_field(j)
            &&& Some(l.per_file_ignores) == lists_field(j, "per-file-ignores"@)
            &&& Some(l.noqa_aliases) == texts_field(j, "noqa-aliases"@)
        }),
        member_of(j, "select"@) is None ==> list_field(j, "select"@) == Some(
            Seq::<Seq<char>>::empty(),
        ),
        member_of(j, "ignore"@) is None ==> list_field(j, "ignore"@) == Some(
            Seq::<Seq<char>>::empty(),
        ),
        member_of(j, "select"@) == Some(JsonView::List(v)) ==> list_field(j, "select"@)
            == all_texts(v),
        member_of(j, "ignore"@) == Some(JsonView::List(v)) ==> list_field(j, "ignore"@)
            == all_texts(v),
{
}

/// The tables of ignores by file and of aliases are read where they are tables, and are empty where
/// they are absent.
pub proof fn law_tables_in_the_table_are_read(j: JsonView, v: Seq<(Seq<char>, JsonView)>)
    ensures
        member_of(j, "per-file-ignores"@) == Some(JsonView::Object(v)) ==> lists_field(
            j,
            "per-file-ignores"@,
        ) == lists_in(v),
        member_of(j, "per-file-ignores"@) is None ==> lists_field(j, "per-file-ignores"@) is Some
            && lists_field(j, "per-file-ignores"@)->0.len() == 0,
        member_of(j, "per-file-ignores"@) is Some && !(member_of(j, "per-file-ignores"@)
            ->0 is Object) ==> lists_field(j, "per-file-ignores"@) is None,
        member_of(j, "noqa-aliases"@) == Some(JsonView::Object(v)) ==> texts_field(
            j,
            "noqa-aliases"@,
        ) == texts_in(v),
        member_of(j, "noqa-aliases"@) is None ==> texts_field(j, "noqa-aliases"@) is Some
            && texts_field(j, "noqa-aliases"@)->0.len() == 0,
        member_of(j, "noqa-aliases"@) is Some && !(member_of(j, "noqa-aliases"@)->0 is Object)
            ==> texts_field(j, "noqa-aliases"@) is None,
{
}

/// Ignores by file are read glob by glob, each with all of its codes, or not at all.
pub proof fn law_file_ignores_are_read_whole(v: Seq<(Seq<char>, JsonView)>, i: int)
    requires
        0 <= i < v.len(),
    ensures
        lists_in(v) is Some <==> forall|j: int|
            0 <= j < v.len() ==> text_list_of((#[trigger] v[j]).1) is Some,
        lists_in(v) is Some ==> lists_in(v)->0.len() == v.len() && lists_in(v)->0[i].0 == v[i].0
            && Some(lists_in(v)->0[i].1) == text_list_of(v[i].1),
    decreases v.len(),
{
    let rest = v.drop_last();
    if rest.len() > 0 {
        law_file_ignores_are_read_whole(
            rest,
            if i < rest.len() {
                i
            } else {
                0
            },
        );
    } else {
        assert(lists_in(rest) is Some);
    }
    if lists_in(v) is Some {
        assert forall|j: int| 0 <= j < v.len() implies text_list_of((#[trigger] v[j]).1) is Some by {
            if j < rest.len() {
                assert(rest[j] == v[j]);
            }
        }
    }
    if forall|j: int| 0 <= j < v.len() ==> text_list_of((#[trigger] v[j]).1) is Some {
        assert(text_list_of(v[v.len() - 1].1) is Some);
        assert forall|j: int| 0 <= j < rest.len() implies text_list_of((#[trigger] rest[j]).1) is Some
            by {
            assert(rest[j] == v[j]);
        }
        assert(lists_in(rest) is Some);
    }
}

/// Aliases are read one by one, each with the code that it stands for, or not at all.
pub proof fn law_aliases_are_read_whole(v: Seq<(Seq<char>, JsonView)>, i: int)
    requires
        0 <= i < v.len(),
    ensures
        texts_in(v) is Some <==> forall|j: int| 0 <= j < v.len() ==> (#[trigger] v[j]).1 is Text,
        texts_in(v) is Some ==> texts_in(v)->0.len() == v.len() && texts_in(v)->0[i].0 == v[i].0
            && v[i].1 == JsonView::Text(texts_in(v)->0[i].1),
    decreases v.len(),
{
    let rest = v.drop_last();
    if rest.len() > 0 {
        law_aliases_are_read_whole(
            rest,
            if i < rest.len() {
                i
            } else {
                0
            },
        );
    } else {
        assert(texts_in(rest) is Some);
    }
    if texts_in(v) is Some {
        assert forall|j: int| 0 <= j < v.len() implies (#[trigger] v[j]).1 is Text by {
            if j < rest.len() {
                assert(rest[j] == v[j]);
            }
        }
    }
    if forall|j: int| 0 <= j < v.len() ==> (#[trigger] v[j]).1 is Text {
        assert(v[v.len() - 1].1 is Text);
        assert forall|j: int| 0 <= j < rest.len() implies (#[trigger] rest[j]).1 is Text by {
            assert(rest[j] == v[j]);
        }
        assert(texts_in(rest) is Some);
    }
}

/// Every field of a `lint` table that is no setting of the table is a rule's table, in order.
pub proof fn law_other_fields_are_tables(
    a: Seq<(Seq<char>, JsonView)>,
    b: Seq<(Seq<char>, JsonView)>,
    field: (Seq<char>, JsonView),
)
    ensures
        tables_in(a + b) == tables_in(a) + tables_in(b),
        field.0 == "select"@ || field.0 == "ignore"@ || field.0 == "level"@ || field.0
            == "per-file-ignores"@ || field.0 == "noqa-aliases"@ ==> tables_in(seq![field]).len()
            == 0,
        field.0 != "select"@ && field.0 != "ignore"@ && field.0 != "level"@ && field.0
            != "per-file-ignores"@ && field.0 != "noqa-aliases"@ ==> tables_in(seq![field])
            == seq![(field.0, table_in(field.0, field.1))],
    decreases b.len(),
{
    let all = a + b;
    let one = seq![field];
    assert(one.drop_last() =~= Seq::empty());
    assert(tables_in(one.drop_last()) =~= Seq::empty());
    assert(one.last() == field);
    if b.len() == 0 {
        assert(all =~= a);
        assert(tables_in(a) + tables_in(b) =~= tables_in(a));
    } else {
        let rest = b.drop_last();
        law_other_fields_are_tables(a, rest, field);
        assert(all.drop_last() =~= a + rest);
        assert(all.last() == b.last());
        let t = (b.last().0, table_in(b.last().0, b.last().1));
        assert((tables_in(a) + tables_in(rest)).push(t) =~= tables_in(a) + tables_in(rest).push(t));
    }
}

/// The table for module imports has the level, the level for modules that cannot be found under
/// either spelling, and the exceptions that are texts.
pub proof fn law_table_of_module_imports(
    j: JsonView,
    level: Seq<char>,
    unresolved: Seq<char>,
    v: Seq<JsonView>,
    i: int,
)
    requires
        member_of(j, "level"@) == Some(JsonView::Text(level)),
        member_of(j, "unresolved-level"@) == Some(JsonView::Text(unresolved)) || member_of(
            j,
            "unresolved-level"@,
        ) is None && member_of(j, "unresolved_level"@) == Some(JsonView::Text(unresolved)),
        member_of(j, "exceptions"@) == Some(JsonView::List(v)),
        0 <= i < v.len(),
    ensures
        table_in("module-only-imports"@, j) is ModuleOnlyImports,
        table_in("module-only-imports"@, j)->ModuleOnlyImports_level == Some(level),
        table_in("module-only-imports"@, j)->unresolved_level == Some(unresolved),
        table_in("module-only-imports"@, j)->exceptions is Some,
        table_in("module-only-imports"@, j)->exceptions->0.len() == v.len(),
        v[i] is Text ==> table_in("module-only-imports"@, j)->exceptions->0[i] == Some(
            v[i]->Text_0,
        ),
        !(v[i] is Text) ==> table_in("module-only-imports"@, j)->exceptions->0[i] is None,
{
    assert(exceptions_in(j) is Some);
}

/// The table for aliases has the level that is named exactly, and none where another is.
pub proof fn law_table_of_aliases(j: JsonView, t: Seq<char>)
    ensures
        table_in("unnecessary-import-alias"@, j) is UnnecessaryImportAlias,
        member_of(j, "level"@) == Some(JsonView::Text("warning"@)) ==> table_in(
            "unnecessary-import-alias"@,
            j,
        ) == (TableView::UnnecessaryImportAlias { level: Some(Level::Warning) }),
        member_of(j, "level"@) == Some(JsonView::Text("error"@)) ==> table_in(
            "unnecessary-import-alias"@,
            j,
        ) == (TableView::UnnecessaryImportAlias { level: Some(Level::Error) }),
        member_of(j, "level"@) == Some(JsonView::Text(t)) && t != "warning"@ && t != "error"@
            ==> table_in("unnecessary-import-alias"@, j) == (TableView::UnnecessaryImportAlias {
            level: None,
        }),
        member_of(j, "level"@) is None ==> table_in("unnecessary-import-alias"@, j) == (
        TableView::UnnecessaryImportAlias { level: None }),
{
    lemma_table_names();
    reveal_strlit("warning");
    reveal_strlit("error");
    assert("warning"@.len() != "error"@.len());
}

/// The table for patterns has the level and the file that are named; a table of another name is
/// that of no rule.
pub proof fn law_table_of_patterns(
    j: JsonView,
    level: Seq<char>,
    file: Seq<char>,
    other: Seq<char>,
)
    ensures
        table_in("user-defined-patterns"@, j) is UserDefinedPatterns,
        member_of(j, "level"@) == Some(JsonView::Text(level)) ==> table_in(
            "user-defined-patterns"@,
            j,
        )->UserDefinedPatterns_level == Some(level),
        member_of(j, "rules_file"@) == Some(JsonView::Text(file)) ==> table_in(
            "user-defined-patterns"@,
            j,
        )->rules_file == Some(file),
        member_of(j, "level"@) is None ==> table_in("user-defined-patterns"@, j)
            ->UserDefinedPatterns_level is None,
        member_of(j, "rules_file"@) is None ==> table_in("user-defined-patterns"@, j)
            ->rules_file is None,
        other != "module-only-imports"@ && other != "unnecessary-import-alias"@ && other
            != "user-defined-patterns"@ ==> table_in(other, j) is Empty,
{
    lemma_table_names();
}

proof fn lemma_table_names()
    ensures
        "module-only-imports"@ != "unnecessary-import-alias"@,
        "module-only-imports"@ != "user-defined-patterns"@,
        "unnecessary-import-alias"@ != "user-defined-patterns"@,
{
    reveal_strlit("module-only-imports");
    reveal_strlit("unnecessary-import-alias");
    reveal_strlit("user-defined-patterns");
    assert("module-only-imports"@.len() != "unnecessary-import-alias"@.len());
    assert("module-only-imports"@.len() != "user-defined-patterns"@.len());
    assert("unnecessary-import-alias"@.len() != "user-defined-patterns"@.len());
}

// ---------------------------------------------------------------------------
// The whole file
// ---------------------------------------------------------------------------

/// Each setting of a section that can be read has what its field says, or its default.
pub proof fn law_settings_are_read(j: JsonView, t: Seq<char>, n: Seq<char>)
    requires
        settings_in(j) is Some,
    ensures
        ({
            let s = settings_in(j)->0;
            &&& member_of(j, "cache-dir"@) == Some(JsonView::Text(t)) ==> s.cache_dir == t
            &&& member_of(j, "cache-dir"@) is None ==> s.cache_dir == ".konform_cache"@
            &&& member_of(j, "python"@) == Some(JsonView::Text(t)) ==> s.python == Some(t)
            &&& member_of(j, "python"@) is None ==> s.python is None
            &&& member_of(j, "workers"@) == Some(JsonView::Number(n)) ==> Some(s.workers)
                == number_value(n)
            &&& member_of(j, "workers"@) is None ==> s.workers == 0
            &&& member_of(j, "lint"@) is Some ==> Some(s.lint) == lint_in(
                member_of(j, "lint"@)->0,
            )
            &&& member_of(j, "lint"@) is None ==> s.lint.select.len() == 0 && s.lint.ignore.len()
                == 0 && s.lint.level == Level::Error && s.lint.rules.len() == 0
        }),
{
}

/// A section can be read exactly where each of its settings can.
pub proof fn law_sections_are_read_whole(j: JsonView)
    requires
        j is Object,
    ensures
        settings_in(j) is Some <==> {
            &&& member_of(j, "cache-dir"@) is None || member_of(j, "cache-dir"@)->0 is Text
                || member_of(j, "cache-dir"@)->0 is Null
            &&& member_of(j, "python"@) is None || member_of(j, "python"@)->0 is Text || member_of(
                j,
                "python"@,
            )->0 is Null
            &&& workers_field(j) is Some
            &&& lint_field(j) is Some
        },
{
}

/// In `pyproject.toml` the section is `tool.konform`, and without it nothing is set.
pub proof fn law_pyproject_has_its_own_section(
    document: JsonView,
    tool: JsonView,
    section: JsonView,
)
    ensures
        member_of(document, "tool"@) == Some(tool) && member_of(tool, "konform"@) == Some(section)
            && settings_in(section) is Some ==> settings_from("pyproject.toml"@, Some(document))
            == settings_in(section)->0,
        member_of(document, "tool"@) == Some(tool) && member_of(tool, "konform"@) is None
            ==> settings_from("pyproject.toml"@, Some(document)) == default_settings(),
        member_of(document, "tool"@) is None ==> settings_from("pyproject.toml"@, Some(document))
            == default_settings(),
{
}

/// In every other file the section is `konform`, or else the whole document.
pub proof fn law_other_files_are_sections(
    file_name: Seq<char>,
    document: JsonView,
    section: JsonView,
)
    requires
        file_name != "pyproject.toml"@,
    ensures
        member_of(document, "konform"@) == Some(section) && settings_in(section) is Some
            ==> settings_from(file_name, Some(document)) == settings_in(section)->0,
        member_of(document, "konform"@) is None && settings_in(document) is Some ==> settings_from(
            file_name,
            Some(document),
        ) == settings_in(document)->0,
{
}

/// Without a document the settings and the search path are the defaults.
pub proof fn law_nothing_to_read_gives_defaults(file_name: Seq<char>)
    ensures
        settings_from(file_name, None) == default_settings(),
        default_settings().cache_dir == ".konform_cache"@,
        default_settings().workers == 0,
        default_settings().python is None,
        default_settings().lint == default_lint(),
        default_lint().select.len() == 0,
        default_lint().ignore.len() == 0,
        default_lint().level == Level::Error,
        default_lint().per_file_ignores.len() == 0,
        default_lint().noqa_aliases.len() == 0,
        default_lint().rules.len() == 0,
        src_from(file_name, None) == seq!["."@, "src"@],
{
}

/// The search path is the list `src` of the section, each text of it.
pub proof fn law_own_search_path_is_read(
    file_name: Seq<char>,
    document: JsonView,
    section: JsonView,
    v: Seq<JsonView>,
)
    requires
        section_in(file_name, document) == Some(section),
        member_of(section, "src"@) == Some(JsonView::List(v)),
    ensures
        src_from(file_name, Some(document)) == some_texts(v),
{
}

/// Without a list `src` of its own the search path is that of `tool.ruff`, and without that the
/// default.
pub proof fn law_search_path_of_ruff_is_read(
    file_name: Seq<char>,
    document: JsonView,
    tool: JsonView,
    ruff: JsonView,
    v: Seq<JsonView>,
)
    requires
        section_in(file_name, document) is None || member_of(
            section_in(file_name, document)->0,
            "src"@,
        ) is None,
    ensures
        member_of(document, "tool"@) == Some(tool) && member_of(tool, "ruff"@) == Some(ruff)
            && member_of(ruff, "src"@) == Some(JsonView::List(v)) ==> src_from(
            file_name,
            Some(document),
        ) == some_texts(v),
        member_of(document, "tool"@) is None ==> src_from(file_name, Some(document)) == seq![
            "."@,
            "src"@,
        ],
{
}

} // verus!
