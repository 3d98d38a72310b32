//! The command `init`: which files it writes, and what stands in them.
use crate::text::{chars, contains, occurs, occurs_at, string, trim_end, trim_end_spec};
use vstd::prelude::*;
use vstd::string::*;

verus! {

/// The configuration file that is written where there is none.
pub const KONFORM_TOML: &'static str =
    "# konform.toml — project linting configuration\n# Run `konform rule --list` to see available rules.\n# Run `konform rule --explain KIS001` for detailed documentation.\n\n[konform]\n\n[konform.lint.module-only-imports]\n# Extend the built-in exceptions (__future__, typing, typing_extensions,\n# collections.abc) if your project has additional exempted modules:\n# exceptions = [\"mycompany.compat\"]\n\n[konform.lint.user-defined-patterns]\n# rules_file = \"konform_patterns.toml\"\n";

/// What is added to a `pyproject.toml` that has no table for this tool.
pub const PYPROJECT_APPEND: &'static str =
    "\n[tool.konform]\n\n[tool.konform.lint.module-only-imports]\n# Extend the built-in exceptions (__future__, typing, typing_extensions,\n# collections.abc) if your project has additional exempted modules:\n# exceptions = [\"mycompany.compat\"]\n\n[tool.konform.lint.user-defined-patterns]\n# rules_file = \"konform_patterns.toml\"\n";

/// The patterns that are written where there are none: examples, commented out.
pub const PATTERNS_TOML: &'static str =
    "# konform_patterns.toml — user-defined KPT pattern rules\n# Auto-discovered when placed alongside pyproject.toml / konform.toml.\n# Run `konform rule --explain KPT001` for full documentation.\n\n# ── Debugging artefacts ─────────────────────────────────────────────────────\n\n# [[rules]]\n# id      = \"KPT001\"\n# message = \"Remove bare print() — use the project logger instead.\"\n# pattern = '^\\s*print\\s*\\('\n# files   = [\"src/**/*.py\"]\n# level   = \"warning\"\n\n# [[rules]]\n# id      = \"KPT002\"\n# message = \"Remove breakpoint() — debugging artefact must not be committed.\"\n# pattern = '^\\s*breakpoint\\s*\\(\\s*\\)'\n# level   = \"error\"\n\n# ── Code hygiene ────────────────────────────────────────────────────────────\n\n# [[rules]]\n# id      = \"KPT010\"\n# message = \"Resolve or ticket this TODO before merging.\"\n# pattern = '#\\s*TODO'\n# files   = [\"src/**/*.py\"]\n# level   = \"warning\"\n";

/// The line that makes Ruff keep the codes of this tool in `# noqa` comments.
pub const EXTERNAL_LINE: &'static str = "external = [\"KIS\", \"KPT\"]";

// ---------------------------------------------------------------------------
// The configuration
// ---------------------------------------------------------------------------

/// What `init` does about the configuration.
pub enum ConfigStep {
    /// There is a `konform.toml`, which is kept.
    KonformExists,
    /// `pyproject.toml` has a table for this tool, which is kept.
    TableExists,
    /// `pyproject.toml` becomes this text.
    Append(String),
    /// `konform.toml` is written with this text.
    Create(String),
}

/// Whether a text has another in it.
fn has(text: &str, wanted: &str) -> (r: bool)
    ensures
        r == occurs(text@, wanted@),
{
    let t = chars(text);
    let w = chars(wanted);
    contains(t.as_slice(), w.as_slice())
}

/// A text without space at its end, and another behind it.
pub open spec fn appended(text: Seq<char>, more: Seq<char>) -> Seq<char> {
    trim_end_spec(text) + more
}

fn append_to(text: &str, more: &str) -> (r: String)
    ensures
        r@ == appended(text@, more@),
{
    let t = chars(text);
    let mut out = string(trim_end(t.as_slice()));
    out.append(more);
    out
}

/// Decides what `init` does about the configuration. `pyproject` is the text of `pyproject.toml`,
/// where there is one.
pub fn init_config(konform_exists: bool, pyproject: Option<&str>, force: bool) -> (r: ConfigStep)
    ensures
        match r {
            ConfigStep::KonformExists => konform_exists && !force,
            ConfigStep::TableExists => !konform_exists && !force && pyproject is Some && occurs(
                pyproject->0@,
                "[tool.konform]"@,
            ),
            ConfigStep::Append(text) => {
                &&& !konform_exists && !force && pyproject is Some
                &&& !occurs(pyproject->0@, "[tool.konform]"@)
                &&& text@ == appended(pyproject->0@, PYPROJECT_APPEND@)
            },
            ConfigStep::Create(text) => {
                &&& force || (!konform_exists && pyproject is None)
                &&& text@ == KONFORM_TOML@
            },
        },
{
    if !force {
        if konform_exists {
            return ConfigStep::KonformExists;
        }
        match pyproject {
            Some(content) => {
                if has(content, "[tool.konform]") {
                    return ConfigStep::TableExists;
                }
                return ConfigStep::Append(append_to(content, PYPROJECT_APPEND));
            },
            None => {},
        }
    }
    ConfigStep::Create(KONFORM_TOML.to_owned())
}

/// The patterns to write; none where there is a file of them.
pub fn init_patterns(exists: bool) -> (r: Option<String>)
    ensures
        match r {
            Some(text) => !exists && text@ == PATTERNS_TOML@,
            None => exists,
        },
{
    if exists {
        None
    } else {
        Some(PATTERNS_TOML.to_owned())
    }
}

// ---------------------------------------------------------------------------
// Ruff
// ---------------------------------------------------------------------------

/// The files that can hold the configuration of Ruff.
pub struct RuffFiles {
    pub pyproject: Option<String>,
    pub ruff: Option<String>,
    pub dot_ruff: Option<String>,
}

/// The file that holds the configuration of Ruff.
#[derive(Clone, Copy, Debug, PartialEq, Eq, Structural)]
pub enum RuffFile {
    Pyproject,
    Ruff,
    DotRuff,
}

/// Whether a `pyproject.toml` configures Ruff.
pub open spec fn configures_ruff(pyproject: Seq<char>) -> bool {
    occurs(pyproject, "[tool.ruff]"@) || occurs(pyproject, "[tool.ruff."@)
}

/// The file that holds the configuration of Ruff: `pyproject.toml` where it does, or else
/// `ruff.toml`, or else `.ruff.toml`.
pub open spec fn ruff_file_of(files: RuffFiles) -> Option<RuffFile> {
    if files.pyproject is Some && configures_ruff(files.pyproject->0@) {
        Some(RuffFile::Pyproject)
    } else if files.ruff is Some {
        Some(RuffFile::Ruff)
    } else if files.dot_ruff is Some {
        Some(RuffFile::DotRuff)
    } else {
        None
    }
}

/// The file that holds the configuration of Ruff.
pub fn find_ruff_file(files: &RuffFiles) -> (r: Option<RuffFile>)
    ensures
        r == ruff_file_of(*files),
{
    match &files.pyproject {
        Some(text) => {
            if has(text.as_str(), "[tool.ruff]") || has(text.as_str(), "[tool.ruff.") {
                return Some(RuffFile::Pyproject);
            }
        },
        None => {},
    }
    if files.ruff.is_some() {
        return Some(RuffFile::Ruff);
    }
    if files.dot_ruff.is_some() {
        return Some(RuffFile::DotRuff);
    }
    None
}

impl RuffFile {
    /// The table of the file that the line belongs to.
    pub open spec fn table(self) -> Seq<char> {
        match self {
            RuffFile::Pyproject => "[tool.ruff.lint]"@,
            _ => "[lint]"@,
        }
    }

    /// The table of the file that the line belongs to.
    pub fn lint_section(self) -> (r: String)
        ensures
            r@ == self.table(),
    {
        match self {
            RuffFile::Pyproject => "[tool.ruff.lint]".to_owned(),
            _ => "[lint]".to_owned(),
        }
    }
}

/// What `init` does about the configuration of Ruff.
pub enum RuffStep {
    /// It has such a line already.
    Nothing,
    /// The table is there; the line must be added by hand.
    Tell(String),
    /// The file becomes this text.
    Append(String),
}

/// The table with the line.
pub open spec fn ruff_block(section: Seq<char>) -> Seq<char> {
    "\n"@ + section + "\n"@ + EXTERNAL_LINE@ + "\n"@
}

/// Decides what `init` does about the configuration of Ruff in the file at `path`.
pub fn patch_ruff_config(path: &str, content: &str, section: &str) -> (r: RuffStep)
    ensures
        match r {
            RuffStep::Nothing => occurs(content@, "external"@),
            RuffStep::Tell(note) => {
                &&& !occurs(content@, "external"@) && occurs(content@, section@)
                &&& note@ == "note: add to "@ + section@ + " in "@ + path@ + ": "@ + EXTERNAL_LINE@
            },
            RuffStep::Append(text) => {
                &&& !occurs(content@, "external"@) && !occurs(content@, section@)
                &&& text@ == appended(content@, ruff_block(section@))
            },
        },
{
    if has(content, "external") {
        return RuffStep::Nothing;
    }
    if has(content, section) {
        let mut note = "note: add to ".to_owned();
        note.append(section);
        note.append(" in ");
        note.append(path);
        note.append(": ");
        note.append(EXTERNAL_LINE);
        return RuffStep::Tell(note);
    }
    let mut block = "\n".to_owned();
    block.append(section);
    block.append("\n");
    block.append(EXTERNAL_LINE);
    block.append("\n");
    RuffStep::Append(append_to(content, block.as_str()))
}

// ---------------------------------------------------------------------------
// Laws
// ---------------------------------------------------------------------------

/// What stands in a text stands in every longer one.
proof fn lemma_occurs_in_longer(a: Seq<char>, s: Seq<char>, b: Seq<char>, p: Seq<char>)
    requires
        occurs(s, p),
    ensures
        occurs(a + s + b, p),
{
    let i = choose|i: int| occurs_at(s, p, i);
    let t = a + s + b;
    assert(t.subrange(a.len() + i, a.len() + i + p.len()) =~= s.subrange(i, i + p.len()));
    assert(occurs_at(t, p, a.len() + i));
}

/// After `init` has added the table to `pyproject.toml`, it finds it there.
pub proof fn law_added_table_is_found(content: Seq<char>)
    ensures
        occurs(appended(content, PYPROJECT_APPEND@), "[tool.konform]"@),
{
    reveal_strlit("[tool.konform]");
    let p = "[tool.konform]"@;
    let s = PYPROJECT_APPEND@;
    reveal_strlit(
        "\n[tool.konform]\n\n[tool.konform.lint.module-only-imports]\n# Extend the built-in exceptions (__future__, typing, typing_extensions,\n# collections.abc) if your project has additional exempted modules:\n# exceptions = [\"mycompany.compat\"]\n\n[tool.konform.lint.user-defined-patterns]\n# rules_file = \"konform_patterns.toml\"\n",
    );
    assert(s.subrange(1, 15) =~= p);
    assert(occurs_at(s, p, 1));
    lemma_occurs_in_longer(trim_end_spec(content), s, Seq::empty(), p);
    assert(trim_end_spec(content) + s + Seq::<char>::empty() =~= appended(content, s));
}

/// After `init` has added the line for Ruff, it finds that line there.
pub proof fn law_added_line_is_found(content: Seq<char>, section: Seq<char>)
    ensures
        occurs(appended(content, ruff_block(section)), "external"@),
{
    reveal_strlit("external");
    reveal_strlit("external = [\"KIS\", \"KPT\"]");
    let p = "external"@;
    let s = EXTERNAL_LINE@;
    assert(s.subrange(0, 8) =~= p);
    assert(occurs_at(s, p, 0));
    let front = trim_end_spec(content) + ("\n"@ + section + "\n"@);
    lemma_occurs_in_longer(front, s, "\n"@, p);
    assert(front + s + "\n"@ =~= appended(content, ruff_block(section)));
}

/// The line for Ruff goes to `pyproject.toml` where that configures Ruff, or else to `ruff.toml`,
/// or else to `.ruff.toml`, as far as there is one.
pub proof fn law_the_file_of_ruff_is_found(files: RuffFiles)
    ensures
        ({
            let configured = files.pyproject is Some && (occurs(
                files.pyproject->0@,
                "[tool.ruff]"@,
            ) || occurs(files.pyproject->0@, "[tool.ruff."@));
            &&& configured ==> ruff_file_of(files) == Some(RuffFile::Pyproject)
            &&& !configured && files.ruff is Some ==> ruff_file_of(files) == Some(RuffFile::Ruff)
            &&& !configured && files.ruff is None && files.dot_ruff is Some ==> ruff_file_of(files)
                == Some(RuffFile::DotRuff)
            &&& !configured && files.ruff is None && files.dot_ruff is None ==> ruff_file_of(
                files,
            ) is None
            &&& RuffFile::Pyproject.table() == "[tool.ruff.lint]"@
            &&& RuffFile::Ruff.table() == "[lint]"@
            &&& RuffFile::DotRuff.table() == "[lint]"@
        }),
{
}

} // verus!
