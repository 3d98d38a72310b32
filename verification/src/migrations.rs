//! Rewriting configurations of an older shape.
use crate::config::Config;
use crate::config_read::{
    find_section, is_config_of, load_config, section_in, settings_from, settings_in, ConfigFile,
};
use crate::document::text_list_of;
use crate::json::{field_in, fields, member, member_of, Json, JsonView};
use crate::ordered::has_text;
use crate::parse::{read_toml, toml_tree};
use crate::run::copy_texts;
use crate::text::{eq, strs};
use crate::types::opt;
use crate::upgrade::{
    is_old, law_moved_settings_arrive, law_other_settings_stay, law_upgraded_is_current,
    law_value_is_put, same, upgrade, upgraded, upgraded_section, with_value,
};
use vstd::prelude::*;
use vstd::string::*;

verus! {

// ---------------------------------------------------------------------------
// The shape of a configuration
// ---------------------------------------------------------------------------

/// The keys of a configuration.
pub struct Shape {
    /// The keys of the table of this tool.
    pub top: Vec<String>,
    /// The keys of its table `KIS`; none where there is no such table.
    pub kis: Vec<String>,
}

/// What a [`Shape`] says.
#[verifier::ext_equal]
pub struct ShapeView {
    pub top: Seq<Seq<char>>,
    pub kis: Seq<Seq<char>>,
}

impl View for Shape {
    type V = ShapeView;

    open spec fn view(&self) -> ShapeView {
        ShapeView { top: strs(self.top@), kis: strs(self.kis@) }
    }
}

/// One change to a configuration. Values move with their keys.
pub enum KeyEdit {
    /// A key of the table is renamed.
    Rename { from: String, to: String },
    /// A key of the table moves into `lint`.
    MoveKey { from: String, to: String },
    /// A key of a table within the table is renamed.
    RenameIn { table: String, from: String, to: String },
    /// A table within the table moves into `lint`.
    MoveTable { from: String, to: String },
}

/// What a [`KeyEdit`] says.
pub enum EditView {
    Rename { from: Seq<char>, to: Seq<char> },
    MoveKey { from: Seq<char>, to: Seq<char> },
    RenameIn { table: Seq<char>, from: Seq<char>, to: Seq<char> },
    MoveTable { from: Seq<char>, to: Seq<char> },
}

impl View for KeyEdit {
    type V = EditView;

    open spec fn view(&self) -> EditView {
        match self {
            KeyEdit::Rename { from, to } => EditView::Rename { from: from@, to: to@ },
            KeyEdit::MoveKey { from, to } => EditView::MoveKey { from: from@, to: to@ },
            KeyEdit::RenameIn { table, from, to } => EditView::RenameIn {
                table: table@,
                from: from@,
                to: to@,
            },
            KeyEdit::MoveTable { from, to } => EditView::MoveTable { from: from@, to: to@ },
        }
    }
}

/// What several changes say.
pub open spec fn edit_views(v: Seq<KeyEdit>) -> Seq<EditView> {
    v.map_values(|e: KeyEdit| e@)
}

/// What is said of a change.
pub open spec fn note_of(e: EditView) -> Seq<char> {
    match e {
        EditView::Rename { from, to } => "renamed `"@ + from + "` to `"@ + to + "`"@,
        EditView::MoveKey { from, to } => "moved `"@ + from + "` to `lint."@ + to + "`"@,
        EditView::RenameIn { table, from, to } => "renamed `"@ + table + "."@ + from + "` to `"@
            + to + "`"@,
        EditView::MoveTable { from, to } => "moved `[tool.konform."@ + from + "]` to `lint."@ + to
            + "`"@,
    }
}

impl KeyEdit {
    /// What is said of the change.
    pub fn note(&self) -> (r: String)
        ensures
            r@ == note_of(self@),
    {
        match self {
            KeyEdit::Rename { from, to } => {
                let mut out = "renamed `".to_owned();
                out.append(from.as_str());
                out.append("` to `");
                out.append(to.as_str());
                out.append("`");
                out
            },
            KeyEdit::MoveKey { from, to } => {
                let mut out = "moved `".to_owned();
                out.append(from.as_str());
                out.append("` to `lint.");
                out.append(to.as_str());
                out.append("`");
                out
            },
            KeyEdit::RenameIn { table, from, to } => {
                let mut out = "renamed `".to_owned();
                out.append(table.as_str());
                out.append(".");
                out.append(from.as_str());
                out.append("` to `");
                out.append(to.as_str());
                out.append("`");
                out
            },
            KeyEdit::MoveTable { from, to } => {
                let mut out = "moved `[tool.konform.".to_owned();
                out.append(from.as_str());
                out.append("]` to `lint.");
                out.append(to.as_str());
                out.append("`");
                out
            },
        }
    }
}

// ---------------------------------------------------------------------------
// Migrations
// ---------------------------------------------------------------------------

/// A rewrite of an older shape into a newer one.
pub trait ConfigMigration: Send + Sync {
    /// A short name.
    spec fn id_of(&self) -> Seq<char>;

    /// One line on what is rewritten.
    spec fn description_of(&self) -> Seq<char>;

    /// Whether a table has the older shape.
    spec fn detects(&self, shape: ShapeView) -> bool;

    /// The changes that rewrite a table.
    spec fn changes(&self, shape: ShapeView) -> Seq<EditView>;

    /// A short name.
    fn id(&self) -> (r: String)
        ensures
            r@ == self.id_of(),
    ;

    /// One line on what is rewritten.
    fn description(&self) -> (r: String)
        ensures
            r@ == self.description_of(),
    ;

    /// Whether a table has the older shape.
    fn detect(&self, shape: &Shape) -> (r: bool)
        ensures
            r == self.detects(shape@),
    ;

    /// The changes that rewrite a table.
    fn apply(&self, shape: &Shape) -> (r: Vec<KeyEdit>)
        ensures
            edit_views(r@) == self.changes(shape@),
    ;
}

/// Moves the selection of rules and the tables of their categories into `lint`.
pub struct LintSectionMigration;

/// The change for a key that moves into `lint`, where it is there.
pub open spec fn key_move(top: Seq<Seq<char>>, from: Seq<char>, to: Seq<char>) -> Seq<EditView> {
    if top.contains(from) {
        seq![EditView::MoveKey { from, to }]
    } else {
        Seq::empty()
    }
}

/// The change for a table that moves into `lint`, where it is there.
pub open spec fn table_move(top: Seq<Seq<char>>, from: Seq<char>, to: Seq<char>) -> Seq<EditView> {
    if top.contains(from) {
        seq![EditView::MoveTable { from, to }]
    } else {
        Seq::empty()
    }
}

/// The change for the key of the cache directory.
pub open spec fn cache_rename(top: Seq<Seq<char>>) -> Seq<EditView> {
    if top.contains("cache_dir"@) {
        seq![EditView::Rename { from: "cache_dir"@, to: "cache-dir"@ }]
    } else {
        Seq::empty()
    }
}

/// The change within the table `KIS`.
pub open spec fn kis_rename(s: ShapeView) -> Seq<EditView> {
    if s.top.contains("KIS"@) && s.kis.contains("unresolved_level"@) {
        seq![
            EditView::RenameIn {
                table: "KIS"@,
                from: "unresolved_level"@,
                to: "unresolved-level"@,
            },
        ]
    } else {
        Seq::empty()
    }
}

/// All changes, in order.
pub open spec fn lint_section_changes(s: ShapeView) -> Seq<EditView> {
    cache_rename(s.top) + key_move(s.top, "select"@, "select"@) + key_move(
        s.top,
        "ignore"@,
        "ignore"@,
    ) + key_move(s.top, "level"@, "level"@) + key_move(
        s.top,
        "per_file_ignores"@,
        "per-file-ignores"@,
    ) + key_move(s.top, "noqa_aliases"@, "noqa-aliases"@) + kis_rename(s) + table_move(
        s.top,
        "KIS"@,
        "module-only-imports"@,
    ) + table_move(s.top, "KPT"@, "user-defined-patterns"@)
}

/// Whether a table has keys of the older shape and no table `lint`.
pub open spec fn has_old_shape(top: Seq<Seq<char>>) -> bool {
    !top.contains("lint"@) && (top.contains("cache_dir"@) || top.contains("select"@)
        || top.contains("ignore"@) || top.contains("level"@) || top.contains("per_file_ignores"@)
        || top.contains("noqa_aliases"@) || top.contains("KIS"@) || top.contains("KPT"@))
}

fn push_edit(out: &mut Vec<KeyEdit>, e: KeyEdit)
    ensures
        edit_views(final(out)@) == edit_views(old(out)@).push(e@),
{
    let ghost before = out@;
    out.push(e);
    assert(edit_views(out@) =~= edit_views(before).push(e@));
}

fn move_key(out: &mut Vec<KeyEdit>, top: &Vec<String>, from: &str, to: &str)
    ensures
        edit_views(final(out)@) == edit_views(old(out)@) + key_move(strs(top@), from@, to@),
{
    let ghost before = edit_views(out@);
    if has_text(top, from) {
        push_edit(out, KeyEdit::MoveKey { from: from.to_owned(), to: to.to_owned() });
        assert(edit_views(out@) =~= before + key_move(strs(top@), from@, to@));
    } else {
        assert(before + key_move(strs(top@), from@, to@) =~= before);
    }
}

fn move_table(out: &mut Vec<KeyEdit>, top: &Vec<String>, from: &str, to: &str)
    ensures
        edit_views(final(out)@) == edit_views(old(out)@) + table_move(strs(top@), from@, to@),
{
    let ghost before = edit_views(out@);
    if has_text(top, from) {
        push_edit(out, KeyEdit::MoveTable { from: from.to_owned(), to: to.to_owned() });
        assert(edit_views(out@) =~= before + table_move(strs(top@), from@, to@));
    } else {
        assert(before + table_move(strs(top@), from@, to@) =~= before);
    }
}

impl ConfigMigration for LintSectionMigration {
    open spec fn id_of(&self) -> Seq<char> {
        "lint-section"@
    }

    open spec fn description_of(&self) -> Seq<char> {
        "Move rule selection/level settings and per-category config into [tool.konform.lint]"@
    }

    open spec fn detects(&self, shape: ShapeView) -> bool {
        has_old_shape(shape.top)
    }

    open spec fn changes(&self, shape: ShapeView) -> Seq<EditView> {
        lint_section_changes(shape)
    }

    fn id(&self) -> (r: String) {
        "lint-section".to_owned()
    }

    fn description(&self) -> (r: String) {
        "Move rule selection/level settings and per-category config into [tool.konform.lint]".to_owned()
    }

    fn detect(&self, shape: &Shape) -> (r: bool) {
        if has_text(&shape.top, "lint") {
            return false;
        }
        has_text(&shape.top, "cache_dir") || has_text(&shape.top, "select") || has_text(
            &shape.top,
            "ignore",
        ) || has_text(&shape.top, "level") || has_text(&shape.top, "per_file_ignores") || has_text(
            &shape.top,
            "noqa_aliases",
        ) || has_text(&shape.top, "KIS") || has_text(&shape.top, "KPT")
    }

    fn apply(&self, shape: &Shape) -> (r: Vec<KeyEdit>) {
        let ghost s = shape@;
        let mut out: Vec<KeyEdit> = Vec::new();
        assert(edit_views(out@) =~= Seq::empty());
        if has_text(&shape.top, "cache_dir") {
            push_edit(
                &mut out,
                KeyEdit::Rename { from: "cache_dir".to_owned(), to: "cache-dir".to_owned() },
            );
        }
        assert(edit_views(out@) =~= cache_rename(s.top));
        move_key(&mut out, &shape.top, "select", "select");
        move_key(&mut out, &shape.top, "ignore", "ignore");
        move_key(&mut out, &shape.top, "level", "level");
        move_key(&mut out, &shape.top, "per_file_ignores", "per-file-ignores");
        move_key(&mut out, &shape.top, "noqa_aliases", "noqa-aliases");
        let ghost before = edit_views(out@);
        if has_text(&shape.top, "KIS") && has_text(&shape.kis, "unresolved_level") {
            push_edit(
                &mut out,
                KeyEdit::RenameIn {
                    table: "KIS".to_owned(),
                    from: "unresolved_level".to_owned(),
                    to: "unresolved-level".to_owned(),
                },
            );
        }
        assert(edit_views(out@) =~= before + kis_rename(s));
        move_table(&mut out, &shape.top, "KIS", "module-only-imports");
        move_table(&mut out, &shape.top, "KPT", "user-defined-patterns");
        out
    }
}

/// What a migration did.
pub struct MigrationReport {
    pub id: String,
    pub description: String,
    pub notes: Vec<String>,
}

/// What is said of several changes.
pub open spec fn notes_of(edits: Seq<EditView>) -> Seq<Seq<char>> {
    edits.map_values(|e: EditView| note_of(e))
}

fn write_notes(edits: &Vec<KeyEdit>) -> (r: Vec<String>)
    ensures
        strs(r@) == notes_of(edit_views(edits@)),
{
    let ghost all = notes_of(edit_views(edits@));
    let mut out: Vec<String> = Vec::new();
    let mut i: usize = 0;
    assert(strs(out@) =~= all.take(0));
    while i < edits.len()
        invariant
            i <= edits@.len(),
            all == notes_of(edit_views(edits@)),
            strs(out@) == all.take(i as int),
        decreases edits@.len() - i,
    {
        assert(edit_views(edits@)[i as int] == edits@[i as int]@);
        let note = edits[i].note();
        let ghost before = out@;
        out.push(note);
        assert(strs(out@) =~= strs(before).push(note@));
        assert(all.take(i + 1) =~= all.take(i as int).push(note@));
        i += 1;
    }
    assert(all.take(all.len() as int) =~= all);
    out
}

/// Runs a migration on a table: the changes to make and what is said of them. A table of the
/// newer shape is left as it is.
pub fn run_migration<M: ConfigMigration>(migration: &M, shape: &Shape) -> (r: Option<
    (Vec<KeyEdit>, MigrationReport),
>)
    ensures
        match r {
            Some((edits, report)) => {
                &&& migration.detects(shape@)
                &&& edit_views(edits@) == migration.changes(shape@)
                &&& report.id@ == migration.id_of()
                &&& report.description@ == migration.description_of()
                &&& strs(report.notes@) == notes_of(migration.changes(shape@))
            },
            None => !migration.detects(shape@),
        },
{
    if !migration.detect(shape) {
        return None;
    }
    let edits = migration.apply(shape);
    let notes = write_notes(&edits);
    Some(
        (
            edits,
            MigrationReport { id: migration.id(), description: migration.description(), notes },
        ),
    )
}

/// Runs every migration on a table, one after the other.
pub fn run_migrations(shape: &Shape) -> (r: Vec<(Vec<KeyEdit>, MigrationReport)>)
    ensures
        r@.len() == if has_old_shape(shape@.top) {
            1int
        } else {
            0
        },
        has_old_shape(shape@.top) ==> {
            &&& edit_views(r@[0].0@) == lint_section_changes(shape@)
            &&& r@[0].1.id@ == LintSectionMigration.id_of()
            &&& r@[0].1.description@ == LintSectionMigration.description_of()
            &&& strs(r@[0].1.notes@) == notes_of(lint_section_changes(shape@))
        },
{
    let mut reports: Vec<(Vec<KeyEdit>, MigrationReport)> = Vec::new();
    match run_migration(&LintSectionMigration, shape) {
        Some(report) => reports.push(report),
        None => {},
    }
    reports
}

// ---------------------------------------------------------------------------
// Texts
// ---------------------------------------------------------------------------

/// A TOML text with an empty table under a key of the table at `path`; `None` where the text is no
/// TOML or has no table there.
pub uninterp spec fn toml_with_table(
    text: Seq<char>,
    path: Seq<Seq<char>>,
    key: Seq<char>,
) -> Option<Seq<char>>;

/// Parses a text as `toml_edit::DocumentMut`, goes down to a table with `Item::get_mut`, puts
/// `toml_edit::table` under a key with `TableLike::insert`, and writes the document. The result is
/// a function of the text, the path and the key. What the text written says is not claimed.
#[verifier::external_body]
fn make_table(text: &str, path: &Vec<String>, key: &str) -> (r: Option<String>)
    ensures
        opt(r) == toml_with_table(text@, strs(path@), key@),
{
    let mut doc: toml_edit::DocumentMut = text.parse().ok()?;
    let item = path.iter().try_fold(doc.as_item_mut(), |item, part| item.get_mut(part.as_str()))?;
    item.as_table_like_mut()?.insert(key, toml_edit::table());
    Some(doc.to_string())
}

/// A TOML text with one item moved from one table to another; `None` where the text is no TOML or
/// has no such tables or no such item.
pub uninterp spec fn toml_moved(
    text: Seq<char>,
    from: Seq<Seq<char>>,
    key: Seq<char>,
    to: Seq<Seq<char>>,
    new_key: Seq<char>,
) -> Option<Seq<char>>;

/// Parses a text as `toml_edit::DocumentMut`, takes an item out of a table with
/// `TableLike::remove`, puts it into a table with `TableLike::insert`, and writes the document;
/// each table is found with `Item::get_mut`. The result is a function of the text, the paths and
/// the keys. What the text written says is not claimed.
#[verifier::external_body]
fn move_item(text: &str, from: &Vec<String>, key: &str, to: &Vec<String>, new_key: &str) -> (r:
    Option<String>)
    ensures
        opt(r) == toml_moved(text@, strs(from@), key@, strs(to@), new_key@),
{
    let mut doc: toml_edit::DocumentMut = text.parse().ok()?;
    let item = from.iter().try_fold(doc.as_item_mut(), |item, part| item.get_mut(part.as_str()))?;
    let moved = item.as_table_like_mut()?.remove(key)?;
    let item = to.iter().try_fold(doc.as_item_mut(), |item, part| item.get_mut(part.as_str()))?;
    item.as_table_like_mut()?.insert(new_key, moved);
    Some(doc.to_string())
}

/// A result where there is one, or else what was there before.
pub open spec fn or_before(r: Option<Seq<char>>, before: Seq<char>) -> Seq<char> {
    match r {
        Some(text) => text,
        None => before,
    }
}

/// A text after a change; one that cannot be made is left out.
pub open spec fn carried_out(text: Seq<char>, section: Seq<Seq<char>>, e: EditView) -> Seq<char> {
    let lint = section.push("lint"@);
    or_before(
        match e {
            EditView::Rename { from, to } => toml_moved(text, section, from, section, to),
            EditView::MoveKey { from, to } => toml_moved(text, section, from, lint, to),
            EditView::RenameIn { table, from, to } => toml_moved(
                text,
                section.push(table),
                from,
                section.push(table),
                to,
            ),
            EditView::MoveTable { from, to } => toml_moved(text, section, from, lint, to),
        },
        text,
    )
}

/// A text after several changes.
pub open spec fn all_carried_out(
    text: Seq<char>,
    section: Seq<Seq<char>>,
    edits: Seq<EditView>,
) -> Seq<char>
    decreases edits.len(),
{
    if edits.len() == 0 {
        text
    } else {
        carried_out(all_carried_out(text, section, edits.drop_last()), section, edits.last())
    }
}

/// Whether a change moves something into `lint`.
pub open spec fn goes_to_lint(e: EditView) -> bool {
    e is MoveKey || e is MoveTable
}

/// Whether one of several changes moves something into `lint`.
pub open spec fn any_goes_to_lint(edits: Seq<EditView>) -> bool {
    exists|i: int| 0 <= i < edits.len() && goes_to_lint(#[trigger] edits[i])
}

/// The text that several changes make of a text. The table `lint` is made first, where anything
/// moves into it.
pub open spec fn rewritten(
    text: Seq<char>,
    section: Seq<Seq<char>>,
    edits: Seq<EditView>,
) -> Seq<char> {
    all_carried_out(
        if any_goes_to_lint(edits) {
            or_before(toml_with_table(text, section, "lint"@), text)
        } else {
            text
        },
        section,
        edits,
    )
}

/// A path with one more part.
fn below(path: &Vec<String>, part: &str) -> (r: Vec<String>)
    ensures
        strs(r@) == strs(path@).push(part@),
{
    let mut out = copy_texts(path);
    let ghost before = out@;
    out.push(part.to_owned());
    assert(strs(out@) =~= strs(before).push(part@));
    out
}

/// Carries out a change.
fn carry_out(text: String, section: &Vec<String>, e: &KeyEdit) -> (r: String)
    ensures
        r@ == carried_out(text@, strs(section@), e@),
{
    let lint = below(section, "lint");
    let moved = match e {
        KeyEdit::Rename { from, to } => move_item(
            text.as_str(),
            section,
            from.as_str(),
            section,
            to.as_str(),
        ),
        KeyEdit::MoveKey { from, to } => move_item(
            text.as_str(),
            section,
            from.as_str(),
            &lint,
            to.as_str(),
        ),
        KeyEdit::RenameIn { table, from, to } => {
            let path = below(section, table.as_str());
            move_item(text.as_str(), &path, from.as_str(), &path, to.as_str())
        },
        KeyEdit::MoveTable { from, to } => move_item(
            text.as_str(),
            section,
            from.as_str(),
            &lint,
            to.as_str(),
        ),
    };
    match moved {
        Some(after) => after,
        None => text,
    }
}

/// Whether one of several changes moves something into `lint`.
fn needs_lint(edits: &Vec<KeyEdit>) -> (r: bool)
    ensures
        r == any_goes_to_lint(edit_views(edits@)),
{
    let ghost all = edit_views(edits@);
    let mut i: usize = 0;
    assert(all.len() == edits@.len());
    while i < edits.len()
        invariant
            i <= edits@.len(),
            all == edit_views(edits@),
            all.len() == edits@.len(),
            forall|j: int| 0 <= j < i ==> !goes_to_lint(#[trigger] all[j]),
        decreases edits@.len() - i,
    {
        assert(all[i as int] == edits@[i as int]@);
        match &edits[i] {
            KeyEdit::MoveKey { from: _, to: _ } => return true,
            KeyEdit::MoveTable { from: _, to: _ } => return true,
            _ => {},
        }
        i += 1;
    }
    false
}

/// Carries out several changes.
fn rewrite(text: &str, section: &Vec<String>, edits: &Vec<KeyEdit>) -> (r: String)
    ensures
        r@ == rewritten(text@, strs(section@), edit_views(edits@)),
{
    let ghost all = edit_views(edits@);
    let mut out = text.to_owned();
    if needs_lint(edits) {
        match make_table(text, section, "lint") {
            Some(with_table) => {
                out = with_table;
            },
            None => {},
        }
    }
    let ghost start = out@;
    let mut i: usize = 0;
    assert(all.take(0) =~= Seq::empty());
    while i < edits.len()
        invariant
            i <= edits@.len(),
            all == edit_views(edits@),
            out@ == all_carried_out(start, strs(section@), all.take(i as int)),
        decreases edits@.len() - i,
    {
        assert(all.take(i + 1).drop_last() =~= all.take(i as int));
        assert(all.take(i + 1).last() == edits@[i as int]@);
        out = carry_out(out, section, &edits[i]);
        i += 1;
    }
    assert(all.take(all.len() as int) =~= all);
    out
}

// ---------------------------------------------------------------------------
// Files
// ---------------------------------------------------------------------------

/// The keys of an object.
pub open spec fn keys_of(v: Seq<(Seq<char>, JsonView)>) -> Seq<Seq<char>> {
    v.map_values(|f: (Seq<char>, JsonView)| f.0)
}

/// The keys of a section.
pub open spec fn shape_of(v: Seq<(Seq<char>, JsonView)>) -> ShapeView {
    ShapeView {
        top: keys_of(v),
        kis: match field_in(v, "KIS"@) {
            Some(JsonView::Object(kis)) => keys_of(kis),
            _ => Seq::empty(),
        },
    }
}

/// The settings in the section of this tool in the file with name `file_name`; `None` where there
/// is no such table.
pub open spec fn section_fields(file_name: Seq<char>, document: JsonView) -> Option<
    Seq<(Seq<char>, JsonView)>,
> {
    match section_in(file_name, document) {
        Some(JsonView::Object(v)) => Some(v),
        _ => None,
    }
}

/// The path of the section of this tool in the file with name `file_name`: in `pyproject.toml` that
/// of the table `tool.konform`, elsewhere that of `konform`, or else the whole file.
pub open spec fn section_path(file_name: Seq<char>, document: JsonView) -> Seq<Seq<char>> {
    if file_name == "pyproject.toml"@ {
        seq!["tool"@, "konform"@]
    } else if member_of(document, "konform"@) is Some {
        seq!["konform"@]
    } else {
        Seq::empty()
    }
}

/// Whether a text has settings of the older shape in the section of this tool.
pub open spec fn is_outdated(file_name: Seq<char>, text: Seq<char>) -> bool {
    match toml_tree(text) {
        Some(document) => match section_fields(file_name, document) {
            Some(v) => has_old_shape(keys_of(v)),
            None => false,
        },
        None => false,
    }
}

/// The changes that bring a document into the current shape.
pub open spec fn changes_for(file_name: Seq<char>, document: JsonView) -> Seq<EditView> {
    lint_section_changes(shape_of(section_fields(file_name, document)->0))
}

/// The text that those changes make of a text.
pub open spec fn rewritten_file(file_name: Seq<char>, text: Seq<char>) -> Seq<char> {
    let document = toml_tree(text)->0;
    rewritten(text, section_path(file_name, document), changes_for(file_name, document))
}

/// Reads the keys of an object.
fn read_keys(v: &Vec<(String, Json)>) -> (r: Vec<String>)
    ensures
        strs(r@) == keys_of(fields(v@)),
{
    let ghost all = keys_of(fields(v@));
    let mut out: Vec<String> = Vec::new();
    let mut i: usize = 0;
    assert(strs(out@) =~= all.take(0));
    while i < v.len()
        invariant
            i <= v@.len(),
            all == keys_of(fields(v@)),
            strs(out@) == all.take(i as int),
        decreases v@.len() - i,
    {
        assert(all[i as int] == v@[i as int].0@);
        let ghost before = out@;
        let key = v[i].0.clone();
        out.push(key);
        assert(strs(out@) =~= strs(before).push(key@));
        assert(all.take(i + 1) =~= all.take(i as int).push(key@));
        i += 1;
    }
    assert(all.take(all.len() as int) =~= all);
    out
}

/// Reads the keys of the section of this tool.
fn read_shape(file_name: &str, document: &Json) -> (r: Option<Shape>)
    ensures
        match r {
            Some(shape) => section_fields(file_name@, document@) is Some && shape@ == shape_of(
                section_fields(file_name@, document@)->0,
            ),
            None => section_fields(file_name@, document@) is None,
        },
{
    let section = match find_section(file_name, document) {
        Some(section) => section,
        None => return None,
    };
    let v = match section {
        Json::Object(v) => v,
        _ => return None,
    };
    assert(section@->Object_0 =~= fields(v@));
    let top = read_keys(v);
    let kis = match member(section, "KIS") {
        Some(value) => match value {
            Json::Object(w) => {
                assert(value@->Object_0 =~= fields(w@));
                read_keys(w)
            },
            _ => Vec::new(),
        },
        None => Vec::new(),
    };
    let shape = Shape { top, kis };
    assert(shape@.kis =~= shape_of(fields(v@)).kis);
    Some(shape)
}

/// Finds the path of the section of this tool.
fn find_section_path(file_name: &str, document: &Json) -> (r: Vec<String>)
    ensures
        strs(r@) == section_path(file_name@, document@),
{
    let root: Vec<String> = Vec::new();
    assert(strs(root@) =~= Seq::empty());
    if eq(file_name, "pyproject.toml") {
        let path = below(&below(&root, "tool"), "konform");
        assert(strs(path@) =~= seq!["tool"@, "konform"@]);
        return path;
    }
    if member(document, "konform").is_some() {
        let path = below(&root, "konform");
        assert(strs(path@) =~= seq!["konform"@]);
        path
    } else {
        root
    }
}

/// Whether a text says what another does, in the current shape.
pub fn says_the_same(file_name: &str, document: Json, text: &str) -> (r: bool)
    ensures
        r == (upgraded(file_name@, document@) is Some && toml_tree(text@) == upgraded(
            file_name@,
            document@,
        )),
{
    match (upgrade(file_name, document), read_toml(text)) {
        (Some(wanted), Some(found)) => same(&wanted, &found),
        _ => false,
    }
}

/// Brings the text of the configuration file with name `file_name` into the current shape. `None`
/// where it has that shape already, is no TOML, or has no section of this tool; and where the
/// rewritten text does not say the same, so that no setting is ever lost.
pub fn migrate_content(file_name: &str, content: &str) -> (r: Option<(String, Vec<MigrationReport>)>)
    ensures
        match r {
            Some((text, reports)) => {
                let document = toml_tree(content@)->0;
                &&& is_outdated(file_name@, content@)
                &&& text@ == rewritten_file(file_name@, content@)
                &&& upgraded(file_name@, document) is Some
                &&& toml_tree(text@) == upgraded(file_name@, document)
                &&& reports@.len() == 1
                &&& reports@[0].id@ == LintSectionMigration.id_of()
                &&& reports@[0].description@ == LintSectionMigration.description_of()
                &&& strs(reports@[0].notes@) == notes_of(changes_for(file_name@, document))
            },
            None => !is_outdated(file_name@, content@) || {
                let wanted = upgraded(file_name@, toml_tree(content@)->0);
                wanted is None || toml_tree(rewritten_file(file_name@, content@)) != wanted
            },
        },
{
    let document = match read_toml(content) {
        Some(document) => document,
        None => return None,
    };
    let shape = match read_shape(file_name, &document) {
        Some(shape) => shape,
        None => return None,
    };
    let section = find_section_path(file_name, &document);
    let mut runs = run_migrations(&shape);
    match runs.pop() {
        Some((edits, report)) => {
            let text = rewrite(content, &section, &edits);
            if !says_the_same(file_name, document, text.as_str()) {
                return None;
            }
            let mut reports: Vec<MigrationReport> = Vec::new();
            reports.push(report);
            Some((text, reports))
        },
        None => None,
    }
}

/// Reads a configuration file, brought into the current shape first where it has an older one: the
/// configuration, and the text to write with what is told of it.
pub fn load_migrated(file: ConfigFile) -> (r: (Config, Option<(String, Vec<MigrationReport>)>))
    ensures
        match r.1 {
            Some((text, reports)) => {
                &&& file.content is Some && is_outdated(file.file_name@, file.content->0@)
                &&& upgraded(file.file_name@, file.document()->0) is Some
                &&& toml_tree(text@) == upgraded(file.file_name@, file.document()->0)
                &&& text@ == rewritten_file(file.file_name@, file.content->0@)
                &&& reports@.len() == 1
                &&& strs(reports@[0].notes@) == notes_of(
                    changes_for(file.file_name@, file.document()->0),
                )
                &&& is_config_of(
                    r.0,
                    file.file_name@,
                    opt(file.config_dir),
                    upgraded(file.file_name@, file.document()->0),
                )
            },
            None => {
                &&& is_config_of(r.0, file.file_name@, opt(file.config_dir), file.document())
                &&& file.content is None || !is_outdated(file.file_name@, file.content->0@) || {
                    let wanted = upgraded(file.file_name@, file.document()->0);
                    wanted is None || toml_tree(
                        rewritten_file(file.file_name@, file.content->0@),
                    ) != wanted
                }
            },
        },
{
    let migrated = match &file.content {
        Some(content) => migrate_content(file.file_name.as_str(), content.as_str()),
        None => None,
    };
    match migrated {
        Some((text, reports)) => {
            let current = ConfigFile {
                file_name: file.file_name,
                config_dir: file.config_dir,
                content: Some(text.clone()),
            };
            (load_config(Some(current)), Some((text, reports)))
        },
        None => (load_config(Some(file)), None),
    }
}

// ---------------------------------------------------------------------------
// Laws
// ---------------------------------------------------------------------------

proof fn lemma_key_is_field(v: Seq<(Seq<char>, JsonView)>, k: Seq<char>)
    ensures
        keys_of(v).contains(k) <==> field_in(v, k) is Some,
    decreases v.len(),
{
    if v.len() > 0 {
        lemma_key_is_field(v.skip(1), k);
        assert(keys_of(v.skip(1)) =~= keys_of(v).skip(1));
        if v[0].0 == k {
            assert(keys_of(v)[0] == k);
        }
        if keys_of(v).skip(1).contains(k) {
            let i = choose|i: int| 0 <= i < keys_of(v).skip(1).len() && keys_of(v).skip(1)[i] == k;
            assert(keys_of(v)[i + 1] == k);
        }
        if keys_of(v).contains(k) && v[0].0 != k {
            let i = choose|i: int| 0 <= i < keys_of(v).len() && keys_of(v)[i] == k;
            assert(keys_of(v).skip(1)[i - 1] == k);
        }
    }
}

/// What the section of this tool says in a document that was brought into the current shape.
pub proof fn law_section_is_upgraded(file_name: Seq<char>, document: JsonView)
    requires
        upgraded(file_name, document) is Some,
    ensures
        section_fields(file_name, document) is Some,
        section_fields(file_name, upgraded(file_name, document)->0) == Some(
            upgraded_section(section_fields(file_name, document)->0),
        ),
{
    let v = document->Object_0;
    let section = section_fields(file_name, document)->0;
    let new = JsonView::Object(upgraded_section(section));
    if file_name == "pyproject.toml"@ {
        let tool = field_in(v, "tool"@)->0->Object_0;
        law_value_is_put(tool, "konform"@, new, "konform"@);
        law_value_is_put(
            v,
            "tool"@,
            JsonView::Object(with_value(tool, "konform"@, new)),
            "tool"@,
        );
    } else {
        match field_in(v, "konform"@) {
            Some(_) => {
                law_value_is_put(v, "konform"@, new, "konform"@);
            },
            None => {
                lemma_own_name();
                law_other_settings_stay(v, "konform"@);
            },
        }
    }
}

/// The name of this tool is no setting that moves.
proof fn lemma_own_name()
    ensures
        !is_old("konform"@),
        "konform"@ != "cache-dir"@,
        "konform"@ != "lint"@,
{
    reveal_strlit("konform");
    reveal_strlit("cache-dir");
    reveal_strlit("lint");
    reveal_strlit("cache_dir");
    reveal_strlit("select");
    reveal_strlit("ignore");
    reveal_strlit("level");
    reveal_strlit("per_file_ignores");
    reveal_strlit("noqa_aliases");
    reveal_strlit("KIS");
    reveal_strlit("KPT");
    assert("konform"@.len() == 7);
    assert("cache-dir"@.len() == 9 && "cache_dir"@.len() == 9);
    assert("select"@.len() == 6 && "ignore"@.len() == 6);
    assert("level"@.len() == 5 && "lint"@.len() == 4);
    assert("per_file_ignores"@.len() == 16 && "noqa_aliases"@.len() == 12);
    assert("KIS"@.len() == 3 && "KPT"@.len() == 3);
}

/// A migrated file is current: migrating it again changes nothing. Here `text` is what migrating
/// the text `content` gave.
pub proof fn law_migrated_file_is_current(
    file_name: Seq<char>,
    content: Seq<char>,
    text: Seq<char>,
)
    requires
        toml_tree(content) is Some,
        upgraded(file_name, toml_tree(content)->0) is Some,
        toml_tree(text) == upgraded(file_name, toml_tree(content)->0),
    ensures
        !is_outdated(file_name, text),
{
    let document = toml_tree(content)->0;
    law_section_is_upgraded(file_name, document);
    let v = section_fields(file_name, document)->0;
    let new = upgraded_section(v);
    lemma_key_is_field(new, "lint"@);
    if field_in(new, "lint"@) is None {
        assert forall|k: Seq<char>| is_old(k) implies !#[trigger] keys_of(new).contains(k) by {
            law_upgraded_is_current(v, k);
            lemma_key_is_field(new, k);
        }
    }
}

/// What a document says outside the section of this tool stays as it is.
pub proof fn law_other_sections_stay(file_name: Seq<char>, document: JsonView, k: Seq<char>)
    requires
        upgraded(file_name, document) is Some,
    ensures
        file_name == "pyproject.toml"@ && k != "tool"@ ==> member_of(
            upgraded(file_name, document)->0,
            k,
        ) == member_of(document, k),
        file_name == "pyproject.toml"@ && k != "konform"@ ==> member_of(
            member_of(upgraded(file_name, document)->0, "tool"@)->0,
            k,
        ) == member_of(member_of(document, "tool"@)->0, k),
        file_name != "pyproject.toml"@ && k != "konform"@ && member_of(document, "konform"@)
            is Some ==> member_of(upgraded(file_name, document)->0, k) == member_of(document, k),
{
    let v = document->Object_0;
    let section = section_fields(file_name, document)->0;
    let new = JsonView::Object(upgraded_section(section));
    if file_name == "pyproject.toml"@ {
        let tool = field_in(v, "tool"@)->0->Object_0;
        let tools = JsonView::Object(with_value(tool, "konform"@, new));
        law_value_is_put(tool, "konform"@, new, k);
        law_value_is_put(v, "tool"@, tools, k);
        law_value_is_put(v, "tool"@, tools, "tool"@);
    } else if field_in(v, "konform"@) is Some {
        law_value_is_put(v, "konform"@, new, k);
    }
}

/// The rules that an older file selects and ignores are those that its configuration selects and
/// ignores once it was migrated. Here `document` is what the older file says.
pub proof fn law_old_selection_is_read(file_name: Seq<char>, document: JsonView)
    requires
        upgraded(file_name, document) is Some,
        settings_in(JsonView::Object(upgraded_section(section_fields(file_name, document)->0)))
            is Some,
    ensures
        ({
            let old = section_fields(file_name, document)->0;
            let settings = settings_from(file_name, upgraded(file_name, document));
            &&& field_in(old, "select"@) is Some ==> text_list_of(field_in(old, "select"@)->0)
                == Some(settings.lint.select)
            &&& field_in(old, "ignore"@) is Some ==> text_list_of(field_in(old, "ignore"@)->0)
                == Some(settings.lint.ignore)
        }),
{
    let old = section_fields(file_name, document)->0;
    law_section_is_upgraded(file_name, document);
    if field_in(old, "select"@) is Some {
        law_moved_settings_arrive(old, "select"@);
    }
    if field_in(old, "ignore"@) is Some {
        law_moved_settings_arrive(old, "ignore"@);
    }
}

/// Every setting of the older shape is changed, and nothing that is not there: settings move into
/// `lint` under their new names, and the directory of the cache and one setting of the import rules
/// are renamed.
pub proof fn law_every_old_setting_is_changed(s: ShapeView, x: EditView)
    ensures
        lint_section_changes(s).contains(x) <==> {
            ||| s.top.contains("cache_dir"@) && x == (EditView::Rename {
                from: "cache_dir"@,
                to: "cache-dir"@,
            })
            ||| s.top.contains("select"@) && x == (EditView::MoveKey {
                from: "select"@,
                to: "select"@,
            })
            ||| s.top.contains("ignore"@) && x == (EditView::MoveKey {
                from: "ignore"@,
                to: "ignore"@,
            })
            ||| s.top.contains("level"@) && x == (EditView::MoveKey {
                from: "level"@,
                to: "level"@,
            })
            ||| s.top.contains("per_file_ignores"@) && x == (EditView::MoveKey {
                from: "per_file_ignores"@,
                to: "per-file-ignores"@,
            })
            ||| s.top.contains("noqa_aliases"@) && x == (EditView::MoveKey {
                from: "noqa_aliases"@,
                to: "noqa-aliases"@,
            })
            ||| s.top.contains("KIS"@) && s.kis.contains("unresolved_level"@) && x == (
            EditView::RenameIn {
                table: "KIS"@,
                from: "unresolved_level"@,
                to: "unresolved-level"@,
            })
            ||| s.top.contains("KIS"@) && x == (EditView::MoveTable {
                from: "KIS"@,
                to: "module-only-imports"@,
            })
            ||| s.top.contains("KPT"@) && x == (EditView::MoveTable {
                from: "KPT"@,
                to: "user-defined-patterns"@,
            })
        },
{
    lemma_among(
        cache_rename(s.top),
        key_move(s.top, "select"@, "select"@),
        key_move(s.top, "ignore"@, "ignore"@),
        key_move(s.top, "level"@, "level"@),
        key_move(s.top, "per_file_ignores"@, "per-file-ignores"@),
        key_move(s.top, "noqa_aliases"@, "noqa-aliases"@),
        kis_rename(s),
        table_move(s.top, "KIS"@, "module-only-imports"@),
        table_move(s.top, "KPT"@, "user-defined-patterns"@),
        x,
    );
}

/// Whether a list of at most one change holds a change.
pub open spec fn is_only(v: Seq<EditView>, x: EditView) -> bool {
    v.len() == 1 && v[0] == x
}

proof fn lemma_among(
    a: Seq<EditView>,
    b: Seq<EditView>,
    c: Seq<EditView>,
    d: Seq<EditView>,
    e: Seq<EditView>,
    f: Seq<EditView>,
    g: Seq<EditView>,
    h: Seq<EditView>,
    i: Seq<EditView>,
    x: EditView,
)
    requires
        a.len() <= 1 && b.len() <= 1 && c.len() <= 1 && d.len() <= 1 && e.len() <= 1 && f.len() <= 1
            && g.len() <= 1 && h.len() <= 1 && i.len() <= 1,
    ensures
        (a + b + c + d + e + f + g + h + i).contains(x) <==> is_only(a, x) || is_only(b, x)
            || is_only(c, x) || is_only(d, x) || is_only(e, x) || is_only(f, x) || is_only(g, x)
            || is_only(h, x) || is_only(i, x),
{
    lemma_in_either(a, b, x);
    lemma_in_either(a + b, c, x);
    lemma_in_either(a + b + c, d, x);
    lemma_in_either(a + b + c + d, e, x);
    lemma_in_either(a + b + c + d + e, f, x);
    lemma_in_either(a + b + c + d + e + f, g, x);
    lemma_in_either(a + b + c + d + e + f + g, h, x);
    lemma_in_either(a + b + c + d + e + f + g + h, i, x);
    lemma_only(a, x);
    lemma_only(b, x);
    lemma_only(c, x);
    lemma_only(d, x);
    lemma_only(e, x);
    lemma_only(f, x);
    lemma_only(g, x);
    lemma_only(h, x);
    lemma_only(i, x);
}

proof fn lemma_only(v: Seq<EditView>, x: EditView)
    requires
        v.len() <= 1,
    ensures
        v.contains(x) == is_only(v, x),
{
    if is_only(v, x) {
        assert(v[0] == x);
    }
}

proof fn lemma_in_either(a: Seq<EditView>, b: Seq<EditView>, x: EditView)
    ensures
        (a + b).contains(x) <==> a.contains(x) || b.contains(x),
{
    let all = a + b;
    if a.contains(x) {
        let k = choose|k: int| 0 <= k < a.len() && a[k] == x;
        assert(all[k] == x);
    }
    if b.contains(x) {
        let k = choose|k: int| 0 <= k < b.len() && b[k] == x;
        assert(all[k + a.len()] == x);
    }
    if all.contains(x) {
        let k = choose|k: int| 0 <= k < all.len() && all[k] == x;
        if k < a.len() {
            assert(a[k] == x);
        } else {
            assert(b[k - a.len()] == x);
        }
    }
}

/// Where a file has the older shape, something changes.
pub proof fn law_old_shapes_are_seen(s: ShapeView)
    requires
        has_old_shape(s.top),
    ensures
        lint_section_changes(s).len() > 0,
{
    let x = if s.top.contains("cache_dir"@) {
        EditView::Rename { from: "cache_dir"@, to: "cache-dir"@ }
    } else if s.top.contains("select"@) {
        EditView::MoveKey { from: "select"@, to: "select"@ }
    } else if s.top.contains("ignore"@) {
        EditView::MoveKey { from: "ignore"@, to: "ignore"@ }
    } else if s.top.contains("level"@) {
        EditView::MoveKey { from: "level"@, to: "level"@ }
    } else if s.top.contains("per_file_ignores"@) {
        EditView::MoveKey { from: "per_file_ignores"@, to: "per-file-ignores"@ }
    } else if s.top.contains("noqa_aliases"@) {
        EditView::MoveKey { from: "noqa_aliases"@, to: "noqa-aliases"@ }
    } else if s.top.contains("KIS"@) {
        EditView::MoveTable { from: "KIS"@, to: "module-only-imports"@ }
    } else {
        EditView::MoveTable { from: "KPT"@, to: "user-defined-patterns"@ }
    };
    law_every_old_setting_is_changed(s, x);
    assert(lint_section_changes(s).contains(x));
}

/// Each old setting makes a file one of the older shape, unless `lint` is there.
pub proof fn law_each_old_setting_is_seen(top: Seq<Seq<char>>, key: Seq<char>)
    requires
        top.contains(key),
        key == "cache_dir"@ || key == "select"@ || key == "ignore"@ || key == "level"@ || key
            == "per_file_ignores"@ || key == "noqa_aliases"@ || key == "KIS"@ || key == "KPT"@,
    ensures
        has_old_shape(top) <==> !top.contains("lint"@),
{
}

/// Changes are made in turn, each on what the ones before it made.
pub proof fn law_changes_are_carried_out_in_turn(
    text: Seq<char>,
    section: Seq<Seq<char>>,
    a: Seq<EditView>,
    b: Seq<EditView>,
)
    ensures
        all_carried_out(text, section, a + b) == all_carried_out(
            all_carried_out(text, section, a),
            section,
            b,
        ),
    decreases b.len(),
{
    let all = a + b;
    if b.len() == 0 {
        assert(all =~= a);
    } else {
        law_changes_are_carried_out_in_turn(text, section, a, b.drop_last());
        assert(all.drop_last() =~= a + b.drop_last());
        assert(all.last() == b.last());
    }
}

/// Every change is told, in order, with the old name and the new one.
pub proof fn law_every_change_is_told(edits: Seq<EditView>, i: int, from: Seq<char>, to: Seq<char>)
    requires
        0 <= i < edits.len(),
    ensures
        notes_of(edits).len() == edits.len(),
        edits[i] == (EditView::Rename { from, to }) ==> notes_of(edits)[i] == "renamed `"@ + from
            + "` to `"@ + to + "`"@,
        edits[i] == (EditView::MoveKey { from, to }) ==> notes_of(edits)[i] == "moved `"@ + from
            + "` to `lint."@ + to + "`"@,
        edits[i] == (EditView::MoveTable { from, to }) ==> notes_of(edits)[i]
            == "moved `[tool.konform."@ + from + "]` to `lint."@ + to + "`"@,
{
}

} // verus!
