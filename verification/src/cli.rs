//! The command line: its commands and options, and what a run of `check` does in turn.
use crate::output::OutputFormat;
use crate::text::{chars, contains, eq, str_starts_with, strs};
use crate::theme::{ColorWhen, LogLevel};
use crate::types::{lowercase, Level};
use vstd::prelude::*;
use vstd::string::*;

verus! {

// ---------------------------------------------------------------------------
// Commands and options
// ---------------------------------------------------------------------------

/// The whole command line.
pub struct Cli {
    pub command: Option<Command>,
    /// When to write colours.
    pub color: ColorWhen,
    pub verbose: bool,
    /// Print violations only.
    pub quiet: bool,
    /// Print nothing.
    pub silent: bool,
    /// Ignore all configuration files.
    pub isolated: bool,
}

/// The commands.
pub enum Command {
    /// Lint Python files.
    Check(CheckArgs),
    /// Start the language server.
    Server,
    /// List or explain rules.
    Rule(RuleArgs),
    /// Print the version.
    Version,
    /// Remove the cache.
    Clean(CleanArgs),
    /// Write a configuration.
    Init(InitArgs),
}

/// Options of commands that work on source files.
pub struct CommonArgs {
    /// Files or directories; `-` stands for standard input.
    pub file_paths: Vec<String>,
    /// Replaces the configured selection.
    pub select: Vec<String>,
    /// Added to what is configured.
    pub ignore: Vec<String>,
    /// Added to the selection.
    pub extend_select: Vec<String>,
    /// Added to what is ignored.
    pub extend_ignore: Vec<String>,
    /// Globs of files to leave out.
    pub exclude: Vec<String>,
    /// More globs of files to leave out.
    pub extend_exclude: Vec<String>,
    /// `GLOB:CODE,...`, in place of what is configured.
    pub per_file_ignores: Vec<String>,
    /// `GLOB:CODE,...`, added to what is configured.
    pub extend_per_file_ignores: Vec<String>,
    /// The configuration file to use.
    pub config: Option<String>,
}

/// Options of `check`.
pub struct CheckArgs {
    pub common: CommonArgs,
    /// The name that standard input goes by.
    pub stdin_filename: Option<String>,
    /// Fix what can be fixed, then report the rest.
    pub fix: bool,
    /// Show what a fix would change.
    pub diff: bool,
    /// Show the files that would be checked.
    pub show_files: bool,
    pub output_format: OutputFormat,
    /// Count the violations of each rule.
    pub statistics: bool,
    /// Fix what can be fixed, and report nothing.
    pub fix_only: bool,
    /// Fail where a fix changed a file.
    pub exit_non_zero_on_fix: bool,
    /// Report what `# noqa` comments suppress.
    pub ignore_noqa: bool,
    /// Suppress every violation with a `# noqa` comment.
    pub add_noqa: bool,
    /// The file to write the report to.
    pub output_file: Option<String>,
    /// The level that fails a run.
    pub level: Level,
    /// The level that fails a run for changed files.
    pub changed_files_level: Option<Level>,
    /// Do without the cache.
    pub no_cache: bool,
    pub cache_dir: Option<String>,
    /// Never fail.
    pub exit_zero: bool,
    /// Check again whenever a file changes.
    pub watch: bool,
    /// Where the comments for Zuul are written.
    pub output_path: String,
}

/// Options of `clean`.
pub struct CleanArgs {
    pub config: Option<String>,
}

/// Options of `init`.
pub struct InitArgs {
    pub path: String,
    /// Write a configuration even where there is one.
    pub force: bool,
    /// Write no patterns.
    pub no_patterns: bool,
    /// Show what would be written.
    pub diff: bool,
}

/// Options of `rule`.
pub struct RuleArgs {
    pub list: bool,
    /// The code of the rule to explain.
    pub explain: Option<String>,
}

/// Reads a level name in any case.
pub fn parse_level(s: &str) -> (r: Result<Level, String>)
    ensures
        match r {
            Ok(level) => Level::named(lowercase(s@)) == Some(level),
            Err(message) => Level::named(lowercase(s@)) is None && message@ == "Unknown level: "@
                + lowercase(s@),
        },
{
    Level::parse(s)
}

/// How much is said: the strongest of the flags that are set.
pub open spec fn asked_level(silent: bool, quiet: bool, verbose: bool) -> LogLevel {
    if silent {
        LogLevel::Silent
    } else if quiet {
        LogLevel::Quiet
    } else if verbose {
        LogLevel::Verbose
    } else {
        LogLevel::Default
    }
}

impl Cli {
    /// How much is said.
    pub fn log_level(&self) -> (r: LogLevel)
        ensures
            r == asked_level(self.silent, self.quiet, self.verbose),
    {
        if self.silent {
            LogLevel::Silent
        } else if self.quiet {
            LogLevel::Quiet
        } else if self.verbose {
            LogLevel::Verbose
        } else {
            LogLevel::Default
        }
    }
}

// ---------------------------------------------------------------------------
// The default command
// ---------------------------------------------------------------------------

/// Whether an argument is a flag with its value behind an equals sign.
pub open spec fn has_own_value(arg: Seq<char>) -> bool {
    "--"@.is_prefix_of(arg) && crate::text::occurs(arg, "="@)
}

/// Whether an argument names a command.
pub open spec fn is_command(arg: Seq<char>) -> bool {
    arg == "check"@ || arg == "server"@ || arg == "rule"@ || arg == "version"@ || arg == "clean"@
        || arg == "init"@ || arg == "help"@
}

/// Whether an argument is a flag that stands without a command.
pub open spec fn is_top_level_flag(arg: Seq<char>) -> bool {
    arg == "--help"@ || arg == "-h"@ || arg == "--version"@ || arg == "-V"@
}

/// The place of the first argument from `i` on that is no global option.
pub open spec fn first_argument(args: Seq<Seq<char>>, i: int) -> int
    decreases args.len() + 1 - i,
{
    if i < 0 || i >= args.len() {
        i
    } else if has_own_value(args[i]) {
        first_argument(args, i + 1)
    } else if args[i] == "--color"@ {
        first_argument(args, i + 2)
    } else {
        i
    }
}

/// Whether an argument is a flag whose value is the next argument.
pub open spec fn takes_value(arg: Seq<char>) -> bool {
    arg == "--color"@ || arg == "--select"@ || arg == "--ignore"@
        || arg == "--extend-select"@ || arg == "--extend-ignore"@ || arg == "--exclude"@
        || arg == "--extend-exclude"@ || arg == "--per-file-ignores"@
        || arg == "--extend-per-file-ignores"@ || arg == "--config"@
        || arg == "--stdin-filename"@ || arg == "--output-format"@
        || arg == "--output-file"@ || arg == "-o"@ || arg == "--level"@
        || arg == "--changed-files-level"@ || arg == "--cache-dir"@
        || arg == "--output-path"@ || arg == "--explain"@
}

/// Whether an argument is a flag: `-` alone stands for the standard input, and behind `--` there
/// are no flags.
pub open spec fn is_flag(arg: Seq<char>) -> bool {
    "-"@.is_prefix_of(arg) && arg != "-"@ && arg != "--"@
}

/// The place of the first argument from `i` on that is neither a flag nor the value of one.
pub open spec fn first_word(args: Seq<Seq<char>>, i: int) -> int
    decreases args.len() + 1 - i,
{
    if i < 0 || i >= args.len() {
        i
    } else if takes_value(args[i]) {
        first_word(args, i + 2)
    } else if is_flag(args[i]) {
        first_word(args, i + 1)
    } else {
        i
    }
}

/// Whether the first argument that is no flag names a command.
pub open spec fn names_command(args: Seq<Seq<char>>) -> bool {
    let w = first_word(args, 1);
    1 <= w < args.len() && is_command(args[w])
}

/// Where `check` is to be inserted: before the first argument that is no global option with its
/// value, unless that is a flag that stands without a command, or a command is named.
pub open spec fn check_goes_at(args: Seq<Seq<char>>) -> Option<int> {
    let i = first_argument(args, 1);
    if args.len() < 2 || i >= args.len() || is_top_level_flag(args[i]) || names_command(args) {
        None
    } else {
        Some(i)
    }
}

/// The arguments with the default command.
pub open spec fn with_default_command(args: Seq<Seq<char>>) -> Seq<Seq<char>> {
    match check_goes_at(args) {
        Some(i) => args.insert(i, "check"@),
        None => args,
    }
}

/// Whether an argument is a flag whose value is the next argument.
fn wants_value(arg: &str) -> (r: bool)
    ensures
        r == takes_value(arg@),
{
    eq(arg, "--color") || eq(arg, "--select") || eq(arg, "--ignore")
        || eq(arg, "--extend-select") || eq(arg, "--extend-ignore") || eq(arg, "--exclude")
        || eq(arg, "--extend-exclude") || eq(arg, "--per-file-ignores")
        || eq(arg, "--extend-per-file-ignores") || eq(arg, "--config")
        || eq(arg, "--stdin-filename") || eq(arg, "--output-format")
        || eq(arg, "--output-file") || eq(arg, "-o") || eq(arg, "--level")
        || eq(arg, "--changed-files-level") || eq(arg, "--cache-dir")
        || eq(arg, "--output-path") || eq(arg, "--explain")
}

/// Whether the first argument that is no flag names a command.
fn has_command(args: &Vec<String>) -> (r: bool)
    ensures
        r == names_command(strs(args@)),
{
    let ghost all = strs(args@);
    assert(all.len() == args@.len());
    let mut i: usize = 1;
    while i < args.len()
        invariant
            1 <= i,
            all == strs(args@),
            all.len() == args@.len(),
            first_word(all, 1) == first_word(all, i as int),
        decreases args@.len() - i,
    {
        let arg = args[i].as_str();
        assert(all[i as int] == arg@);
        if wants_value(arg) {
            if args.len() - i <= 2 {
                assert(first_word(all, i + 2) == i + 2);
                return false;
            }
            i += 2;
        } else if str_starts_with(arg, "-") && !eq(arg, "-") && !eq(arg, "--") {
            i += 1;
        } else {
            return eq(arg, "check") || eq(arg, "server") || eq(arg, "rule") || eq(arg, "version")
                || eq(arg, "clean") || eq(arg, "init") || eq(arg, "help");
        }
    }
    false
}

/// Where `check` is to be inserted, if anywhere.
pub fn default_subcommand_at(args: &Vec<String>) -> (r: Option<usize>)
    ensures
        match r {
            Some(i) => i <= args@.len() && check_goes_at(strs(args@)) == Some(i as int),
            None => check_goes_at(strs(args@)) is None,
        },
{
    let ghost all = strs(args@);
    assert(all.len() == args@.len());
    if args.len() < 2 {
        return None;
    }
    let equals = chars("=");
    let mut i: usize = 1;
    while i < args.len()
        invariant_except_break
            1 <= i,
            all == strs(args@),
            all.len() == args@.len(),
            args@.len() >= 2,
            equals@ == "="@,
            first_argument(all, 1) == first_argument(all, i as int),
        ensures
            first_argument(all, 1) == i || (i >= args@.len() && first_argument(all, 1)
                >= args@.len()),
            i < args@.len() ==> first_argument(all, 1) == i,
        decreases args@.len() - i,
    {
        let arg = args[i].as_str();
        assert(all[i as int] == arg@);
        let text = chars(arg);
        if str_starts_with(arg, "--") && contains(text.as_slice(), equals.as_slice()) {
            i += 1;
            continue;
        }
        if eq(arg, "--color") {
            if args.len() - i <= 2 {
                assert(first_argument(all, i + 2) == i + 2);
                return None;
            }
            i += 2;
            continue;
        }
        break;
    }
    if i >= args.len() {
        return None;
    }
    let first = args[i].as_str();
    assert(all[i as int] == first@);
    let flag = eq(first, "--help") || eq(first, "-h") || eq(first, "--version") || eq(first, "-V");
    if flag || has_command(args) {
        None
    } else {
        Some(i)
    }
}

/// Inserts the default command where no command is named.
pub fn inject_default_subcommand(args: &mut Vec<String>)
    ensures
        strs(final(args)@) == with_default_command(strs(old(args)@)),
{
    let ghost before = strs(args@);
    match default_subcommand_at(args) {
        Some(i) => {
            let ghost prior = args@;
            args.insert(i, "check".to_owned());
            assert(strs(args@) =~= before.insert(i as int, "check"@));
        },
        None => {},
    }
}

proof fn lemma_first_argument(args: Seq<Seq<char>>, i: int)
    requires
        0 <= i,
    ensures
        i <= first_argument(args, i),
    decreases args.len() + 1 - i,
{
    if i < args.len() {
        if has_own_value(args[i]) {
            lemma_first_argument(args, i + 1);
        } else if args[i] == "--color"@ {
            lemma_first_argument(args, i + 2);
        }
    }
}

/// A flag with its own value is a flag that does not take the next argument.
pub proof fn lemma_own_value_is_flag(arg: Seq<char>)
    requires
        has_own_value(arg),
    ensures
        is_flag(arg),
        !takes_value(arg),
{
    reveal_strlit("-");
    reveal_strlit("--");
    reveal_strlit("=");
    reveal_strlit("--color");
    reveal_strlit("--select");
    reveal_strlit("--ignore");
    reveal_strlit("--extend-select");
    reveal_strlit("--extend-ignore");
    reveal_strlit("--exclude");
    reveal_strlit("--extend-exclude");
    reveal_strlit("--per-file-ignores");
    reveal_strlit("--extend-per-file-ignores");
    reveal_strlit("--config");
    reveal_strlit("--stdin-filename");
    reveal_strlit("--output-format");
    reveal_strlit("--output-file");
    reveal_strlit("-o");
    reveal_strlit("--level");
    reveal_strlit("--changed-files-level");
    reveal_strlit("--cache-dir");
    reveal_strlit("--output-path");
    reveal_strlit("--explain");
    assert("--"@ == arg.take(2));
    assert(arg[0] == arg.take(2)[0]);
    assert("-"@ =~= arg.take(1));
    let k = choose|k: int|
        0 <= k && k + 1 <= arg.len() && #[trigger] arg.subrange(k, k + 1) == "="@;
    assert(exists|k: int|
        0 <= k && k + 1 <= arg.len() && #[trigger] arg.subrange(k, k + 1) == "="@);
    assert(arg.subrange(k, k + 1)[0] == arg[k]);
    assert(arg[k] == '=');
}

/// Up to the argument that `check` stands before, the arguments are read as before.
proof fn lemma_first_stays(args: Seq<Seq<char>>, i: int, k: int)
    requires
        0 <= i <= k < args.len(),
        first_argument(args, i) == k,
    ensures
        first_argument(args.insert(k, "check"@), i) == k,
        first_word(args.insert(k, "check"@), i) == k,
    decreases args.len() - i,
{
    let after = args.insert(k, "check"@);
    if i == k {
        reveal_strlit("check");
        reveal_strlit("-");
        reveal_strlit("--");
        reveal_strlit("--color");
        reveal_strlit("--select");
        reveal_strlit("--ignore");
        reveal_strlit("--extend-select");
        reveal_strlit("--extend-ignore");
        reveal_strlit("--exclude");
        reveal_strlit("--extend-exclude");
        reveal_strlit("--per-file-ignores");
        reveal_strlit("--extend-per-file-ignores");
        reveal_strlit("--config");
        reveal_strlit("--stdin-filename");
        reveal_strlit("--output-format");
        reveal_strlit("--output-file");
        reveal_strlit("-o");
        reveal_strlit("--level");
        reveal_strlit("--changed-files-level");
        reveal_strlit("--cache-dir");
        reveal_strlit("--output-path");
        reveal_strlit("--explain");
        assert(after[k] == "check"@);
        if "--"@.is_prefix_of("check"@) {
            assert("check"@.take(2)[0] == '-');
        }
        if "-"@.is_prefix_of("check"@) {
            assert("check"@.take(1)[0] == '-');
        }
        assert("check"@[0] == 'c');
        assert("--color"@[0] == '-');
        assert("--select"@[0] == '-');
        assert("--ignore"@[0] == '-');
        assert("--extend-select"@[0] == '-');
        assert("--extend-ignore"@[0] == '-');
        assert("--exclude"@[0] == '-');
        assert("--extend-exclude"@[0] == '-');
        assert("--per-file-ignores"@[0] == '-');
        assert("--extend-per-file-ignores"@[0] == '-');
        assert("--config"@[0] == '-');
        assert("--stdin-filename"@[0] == '-');
        assert("--output-format"@[0] == '-');
        assert("--output-file"@[0] == '-');
        assert("-o"@[0] == '-');
        assert("--level"@[0] == '-');
        assert("--changed-files-level"@[0] == '-');
        assert("--cache-dir"@[0] == '-');
        assert("--output-path"@[0] == '-');
        assert("--explain"@[0] == '-');
    } else {
        assert(after[i] == args[i]);
        if has_own_value(args[i]) {
            lemma_own_value_is_flag(args[i]);
            lemma_first_stays(args, i + 1, k);
        } else {
            assert(args[i] == "--color"@);
            lemma_first_argument(args, i + 2);
            lemma_first_stays(args, i + 2, k);
        }
    }
}

/// Inserting the default command twice is the same as inserting it once.
pub proof fn law_default_command_once(args: Seq<Seq<char>>)
    ensures
        with_default_command(with_default_command(args)) == with_default_command(args),
{
    match check_goes_at(args) {
        Some(k) => {
            lemma_first_argument(args, 1);
            lemma_first_stays(args, 1, k);
            assert(args.insert(k, "check"@)[k] == "check"@);
        },
        None => {},
    }
}

// ---------------------------------------------------------------------------
// The course of `check`
// ---------------------------------------------------------------------------

/// What a run of `check` does next.
#[derive(Clone, Copy, Debug, PartialEq, Eq, Structural)]
pub enum Phase {
    /// Show the files that would be checked.
    ShowFiles,
    /// Show what a fix would change.
    Diff,
    /// Fix what can be fixed.
    Fix,
    /// Look for violations.
    Check,
    /// Suppress the violations with `# noqa` comments.
    AddNoqa,
    /// Report the violations.
    Report,
    /// Wait for files to change.
    Watch,
    /// End with an exit code.
    Exit(i32),
}

/// What a run of `check` has just done.
#[derive(Clone, Copy, Debug, PartialEq, Eq, Structural)]
pub enum Done {
    /// Nothing yet.
    Start,
    ShowedFiles,
    /// Whether a fix would change anything.
    Diffed(bool),
    /// Whether a fix changed anything.
    Fixed(bool),
    Checked,
    AddedNoqa,
    /// The exit code that the violations give.
    Reported(i32),
}

impl CheckArgs {
    /// Whether what can be fixed is fixed.
    pub open spec fn fixes(self) -> bool {
        self.fix || self.fix_only
    }

    /// What is done after what was done.
    pub open spec fn after(self, done: Done) -> Phase {
        match done {
            Done::Start => if self.show_files {
                Phase::ShowFiles
            } else if self.diff {
                Phase::Diff
            } else if self.fixes() {
                Phase::Fix
            } else {
                Phase::Check
            },
            Done::ShowedFiles => Phase::Exit(0),
            Done::Diffed(changes) => Phase::Exit(
                if changes {
                    1
                } else {
                    0
                },
            ),
            Done::Fixed(changed) => if changed && self.exit_non_zero_on_fix {
                Phase::Exit(1)
            } else if self.fix_only {
                Phase::Exit(0)
            } else {
                Phase::Check
            },
            Done::Checked => if self.add_noqa {
                Phase::AddNoqa
            } else {
                Phase::Report
            },
            Done::AddedNoqa => Phase::Exit(0),
            Done::Reported(code) => if self.watch {
                Phase::Watch
            } else if self.exit_zero {
                Phase::Exit(0)
            } else {
                Phase::Exit(code)
            },
        }
    }

    /// What is done after what was done.
    pub fn next_phase(&self, done: Done) -> (r: Phase)
        ensures
            r == self.after(done),
    {
        match done {
            Done::Start => if self.show_files {
                Phase::ShowFiles
            } else if self.diff {
                Phase::Diff
            } else if self.fix || self.fix_only {
                Phase::Fix
            } else {
                Phase::Check
            },
            Done::ShowedFiles => Phase::Exit(0),
            Done::Diffed(changes) => if changes {
                Phase::Exit(1)
            } else {
                Phase::Exit(0)
            },
            Done::Fixed(changed) => if changed && self.exit_non_zero_on_fix {
                Phase::Exit(1)
            } else if self.fix_only {
                Phase::Exit(0)
            } else {
                Phase::Check
            },
            Done::Checked => if self.add_noqa {
                Phase::AddNoqa
            } else {
                Phase::Report
            },
            Done::AddedNoqa => Phase::Exit(0),
            Done::Reported(code) => if self.watch {
                Phase::Watch
            } else if self.exit_zero {
                Phase::Exit(0)
            } else {
                Phase::Exit(code)
            },
        }
    }

    /// Whether what can be fixed is fixed.
    pub fn wants_fix(&self) -> (r: bool)
        ensures
            r == self.fixes(),
    {
        self.fix || self.fix_only
    }

    /// Whether the cache is left out: `# noqa` comments that are ignored would make what it keeps
    /// wrong.
    pub fn skips_cache(&self) -> (r: bool)
        ensures
            r == (self.no_cache || self.ignore_noqa),
    {
        self.no_cache || self.ignore_noqa
    }

    /// The level that fails a run for changed files.
    pub open spec fn level_of_changed(self) -> Level {
        match self.changed_files_level {
            Some(level) => level,
            None => self.level,
        }
    }

    /// The level that fails a run for changed files.
    pub fn changed_level(&self) -> (r: Level)
        ensures
            r == self.level_of_changed(),
    {
        match self.changed_files_level {
            Some(level) => level,
            None => self.level,
        }
    }
}

/// What a phase ends with, as far as it can be told from the phase alone.
pub open spec fn ends(phase: Phase, done: Done) -> bool {
    match phase {
        Phase::ShowFiles => done == Done::ShowedFiles,
        Phase::Diff => done is Diffed,
        Phase::Fix => done is Fixed,
        Phase::Check => done == Done::Checked,
        Phase::AddNoqa => done == Done::AddedNoqa,
        Phase::Report => done is Reported,
        Phase::Watch => false,
        Phase::Exit(_) => false,
    }
}

/// How far a phase is from the end.
pub open spec fn distance(phase: Phase) -> nat {
    match phase {
        Phase::ShowFiles => 1,
        Phase::Diff => 1,
        Phase::Fix => 4,
        Phase::Check => 3,
        Phase::AddNoqa => 1,
        Phase::Report => 2,
        Phase::Watch => 1,
        Phase::Exit(_) => 0,
    }
}

/// Every phase brings a run nearer to its end, so none is done twice.
pub proof fn law_run_comes_to_an_end(args: CheckArgs, phase: Phase, done: Done)
    requires
        ends(phase, done),
    ensures
        distance(args.after(done)) < distance(phase),
{
}

/// With `--exit-zero` a run that looks for violations ends with 0, unless it watches files.
pub proof fn law_exit_zero(args: CheckArgs, code: i32)
    requires
        args.exit_zero,
        !args.watch,
    ensures
        args.after(Done::Reported(code)) == Phase::Exit(0),
{
}

/// With `--fix-only` no violation is looked for, let alone reported.
pub proof fn law_fix_only_reports_nothing(args: CheckArgs, changed: bool)
    requires
        args.fix_only,
    ensures
        args.after(Done::Start) != Phase::Check,
        args.after(Done::Fixed(changed)) is Exit,
{
}

/// With `--show-files` or `--diff` a run only shows something and ends.
pub proof fn law_showing_changes_nothing(args: CheckArgs, changes: bool)
    requires
        args.show_files || args.diff,
    ensures
        args.after(Done::Start) == Phase::ShowFiles || args.after(Done::Start) == Phase::Diff,
        args.after(Done::ShowedFiles) is Exit,
        args.after(Done::Diffed(changes)) is Exit,
{
}

} // verus!
