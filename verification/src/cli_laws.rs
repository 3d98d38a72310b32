//! How a command line is read, and what a run does one thing after another.
use crate::cli::{
    asked_level, first_argument, first_word, has_own_value, is_command, is_flag, is_top_level_flag,
    lemma_own_value_is_flag, takes_value, with_default_command, CheckArgs, Done, Phase,
};
use crate::theme::LogLevel;
use vstd::prelude::*;

verus! {

// ---------------------------------------------------------------------------
// The command
// ---------------------------------------------------------------------------

/// Whether all options have their values behind an equals sign.
pub open spec fn all_own_values(options: Seq<Seq<char>>) -> bool {
    forall|i: int| 0 <= i < options.len() ==> has_own_value(#[trigger] options[i])
}

proof fn lemma_behind_options(args: Seq<Seq<char>>, i: int, n: int)
    requires
        1 <= i <= n <= args.len(),
        forall|k: int| i <= k < n ==> has_own_value(#[trigger] args[k]),
    ensures
        first_argument(args, i) == first_argument(args, n),
        first_word(args, i) == first_word(args, n),
    decreases n - i,
{
    if i < n {
        lemma_own_value_is_flag(args[i]);
        lemma_behind_options(args, i + 1, n);
    }
}

/// What is no flag is neither an option nor a flag that stands alone.
proof fn lemma_word(w: Seq<char>)
    requires
        !is_flag(w),
    ensures
        !has_own_value(w),
        w != "--color"@,
        !takes_value(w),
        !is_top_level_flag(w),
{
    if has_own_value(w) {
        lemma_own_value_is_flag(w);
    }
    reveal_strlit("-");
    reveal_strlit("--");
    reveal_strlit("--color");
    reveal_strlit("--select");
    reveal_strlit("--ignore");
    reveal_strlit("--extend-select");
    reveal_strlit("--extend-ignore");
    reveal_strlit("--exclude");
    reveal_strlit("--extend-exclude");
    reveal_strlit("--per-file-ignores");
    reveal_strlit("--extend-per-file-ignores");
    reveal_strlit("--config");
    reveal_strlit("--stdin-filename");
    reveal_strlit("--output-format");
    reveal_strlit("--output-file");
    reveal_strlit("-o");
    reveal_strlit("--level");
    reveal_strlit("--changed-files-level");
    reveal_strlit("--cache-dir");
    reveal_strlit("--output-path");
    reveal_strlit("--explain");
    reveal_strlit("--help");
    reveal_strlit("-h");
    reveal_strlit("--version");
    reveal_strlit("-V");
    if takes_value(w) || is_top_level_flag(w) || w == "--color"@ {
        assert(w[0] == '-');
        assert(w.len() > 2 || w[1] != '-');
        assert("-"@ =~= w.take(1));
        assert(is_flag(w));
    }
}

/// Where the first word behind the options names a command, the command line stays as it is.
pub proof fn law_a_named_command_stays(
    program: Seq<char>,
    options: Seq<Seq<char>>,
    command: Seq<char>,
    rest: Seq<Seq<char>>,
)
    requires
        all_own_values(options),
        is_command(command),
    ensures
        with_default_command(seq![program] + options + seq![command] + rest) == seq![program]
            + options + seq![command] + rest,
{
    let args = seq![program] + options + seq![command] + rest;
    let n = options.len() as int + 1;
    assert(args[n] == command);
    assert forall|k: int| 1 <= k < n implies has_own_value(#[trigger] args[k]) by {
        assert(args[k] == options[k - 1]);
    }
    lemma_behind_options(args, 1, n);
    reveal_strlit("-");
    reveal_strlit("check");
    reveal_strlit("server");
    reveal_strlit("rule");
    reveal_strlit("version");
    reveal_strlit("clean");
    reveal_strlit("init");
    reveal_strlit("help");
    assert(command[0] != '-');
    if is_flag(command) {
        assert(command.take(1) == "-"@);
        assert(command.take(1)[0] == command[0]);
    }
    lemma_word(command);
    assert(first_word(args, n) == n);
}

/// Where the first word behind the options is no command, `check` is put before it.
pub proof fn law_check_is_the_default_command(
    program: Seq<char>,
    options: Seq<Seq<char>>,
    word: Seq<char>,
    rest: Seq<Seq<char>>,
)
    requires
        all_own_values(options),
        !is_command(word),
        !is_flag(word),
    ensures
        with_default_command(seq![program] + options + seq![word] + rest) == seq![program] + options
            + seq!["check"@, word] + rest,
{
    let args = seq![program] + options + seq![word] + rest;
    let n = options.len() as int + 1;
    assert(args[n] == word);
    assert forall|k: int| 1 <= k < n implies has_own_value(#[trigger] args[k]) by {
        assert(args[k] == options[k - 1]);
    }
    lemma_behind_options(args, 1, n);
    lemma_word(word);
    assert(first_argument(args, n) == n);
    assert(first_word(args, n) == n);
    assert(args.insert(n, "check"@) =~= seq![program] + options + seq!["check"@, word] + rest);
}

/// Where a flag of `check` comes before the first word, and that is no command, `check` is put
/// before the flag; a value that belongs to the flag is no such word.
pub proof fn law_check_stands_before_its_flags(
    program: Seq<char>,
    options: Seq<Seq<char>>,
    flag: Seq<char>,
    value: Seq<char>,
    word: Seq<char>,
    rest: Seq<Seq<char>>,
)
    requires
        all_own_values(options),
        is_flag(flag),
        !has_own_value(flag),
        !is_top_level_flag(flag),
        flag != "--color"@,
        !is_flag(word),
        !is_command(word),
    ensures
        takes_value(flag) ==> with_default_command(
            seq![program] + options + seq![flag, value, word] + rest,
        ) == seq![program] + options + seq!["check"@, flag, value, word] + rest,
        !takes_value(flag) ==> with_default_command(
            seq![program] + options + seq![flag, word] + rest,
        ) == seq![program] + options + seq!["check"@, flag, word] + rest,
{
    let n = options.len() as int + 1;
    lemma_word(word);
    if takes_value(flag) {
        let args = seq![program] + options + seq![flag, value, word] + rest;
        assert(args[n] == flag);
        assert(args[n + 2] == word);
        assert forall|k: int| 1 <= k < n implies has_own_value(#[trigger] args[k]) by {
            assert(args[k] == options[k - 1]);
        }
        lemma_behind_options(args, 1, n);
        assert(first_argument(args, n) == n);
        assert(first_word(args, n + 2) == n + 2);
        assert(first_word(args, n) == n + 2);
        assert(args.insert(n, "check"@) =~= seq![program] + options + seq![
            "check"@,
            flag,
            value,
            word,
        ] + rest);
    } else {
        let args = seq![program] + options + seq![flag, word] + rest;
        assert(args[n] == flag);
        assert(args[n + 1] == word);
        assert forall|k: int| 1 <= k < n implies has_own_value(#[trigger] args[k]) by {
            assert(args[k] == options[k - 1]);
        }
        lemma_behind_options(args, 1, n);
        assert(first_argument(args, n) == n);
        assert(first_word(args, n + 1) == n + 1);
        assert(first_word(args, n) == n + 1);
        assert(args.insert(n, "check"@) =~= seq![program] + options + seq!["check"@, flag, word]
            + rest);
    }
}

/// A question for help or for the version stays as it is.
pub proof fn law_questions_stand_without_a_command(
    program: Seq<char>,
    options: Seq<Seq<char>>,
    flag: Seq<char>,
    rest: Seq<Seq<char>>,
)
    requires
        all_own_values(options),
        flag == "--help"@ || flag == "-h"@ || flag == "--version"@ || flag == "-V"@,
    ensures
        with_default_command(seq![program] + options + seq![flag] + rest) == seq![program] + options
            + seq![flag] + rest,
{
    let args = seq![program] + options + seq![flag] + rest;
    let n = options.len() as int + 1;
    assert(args[n] == flag);
    assert forall|k: int| 1 <= k < n implies has_own_value(#[trigger] args[k]) by {
        assert(args[k] == options[k - 1]);
    }
    lemma_behind_options(args, 1, n);
    reveal_strlit("--help");
    reveal_strlit("-h");
    reveal_strlit("--version");
    reveal_strlit("-V");
    reveal_strlit("--color");
    reveal_strlit("=");
    if has_own_value(flag) {
        let k = choose|k: int|
            0 <= k && k + 1 <= flag.len() && #[trigger] flag.subrange(k, k + 1) == "="@;
        assert(flag.subrange(k, k + 1)[0] == flag[k]);
    }
    assert(flag != "--color"@) by {
        if flag.len() == 7 {
            assert(flag[2] == '-' || flag[2] == 'h' || flag[2] == 'v');
        }
    }
    assert(first_argument(args, n) == n);
}

/// A colour is given before the command: `check` stands behind it.
pub proof fn law_colours_are_given_before_the_command(
    program: Seq<char>,
    when: Seq<char>,
    word: Seq<char>,
    rest: Seq<Seq<char>>,
)
    requires
        !is_flag(word),
    ensures
        is_command(word) ==> with_default_command(
            seq![program, "--color"@, when, word] + rest,
        ) == seq![program, "--color"@, when, word] + rest,
        !is_command(word) ==> with_default_command(
            seq![program, "--color"@, when, word] + rest,
        ) == seq![program, "--color"@, when, "check"@, word] + rest,
{
    let args = seq![program, "--color"@, when, word] + rest;
    lemma_word(word);
    reveal_strlit("--color");
    reveal_strlit("=");
    reveal_strlit("--");
    if has_own_value("--color"@) {
        let flag = "--color"@;
        let k = choose|k: int|
            0 <= k && k + 1 <= flag.len() && #[trigger] flag.subrange(k, k + 1) == "="@;
        assert(flag.subrange(k, k + 1)[0] == flag[k]);
    }
    assert(args[1] == "--color"@ && args[3] == word);
    assert(first_argument(args, 3) == 3);
    assert(first_argument(args, 1) == 3);
    assert(takes_value("--color"@));
    assert(first_word(args, 3) == 3);
    assert(first_word(args, 1) == 3);
    if !is_command(word) {
        assert(args.insert(3, "check"@) =~= seq![program, "--color"@, when, "check"@, word] + rest);
    }
}

/// The commands, and the flags whose values are the next argument.
pub proof fn law_commands_and_flags_are_known(arg: Seq<char>)
    ensures
        is_command(arg) <==> seq![
            "check"@,
            "server"@,
            "rule"@,
            "version"@,
            "clean"@,
            "init"@,
            "help"@,
        ].contains(arg),
        takes_value(arg) <==> seq![
            "--color"@,
            "--select"@,
            "--ignore"@,
            "--extend-select"@,
            "--extend-ignore"@,
            "--exclude"@,
            "--extend-exclude"@,
            "--per-file-ignores"@,
            "--extend-per-file-ignores"@,
            "--config"@,
            "--stdin-filename"@,
            "--output-format"@,
            "--output-file"@,
            "-o"@,
            "--level"@,
            "--changed-files-level"@,
            "--cache-dir"@,
            "--output-path"@,
            "--explain"@,
        ].contains(arg),
{
    let commands = seq![
        "check"@,
        "server"@,
        "rule"@,
        "version"@,
        "clean"@,
        "init"@,
        "help"@,
    ];
    assert(commands[0] == "check"@ && commands[1] == "server"@ && commands[2] == "rule"@
        && commands[3] == "version"@ && commands[4] == "clean"@ && commands[5] == "init"@
        && commands[6] == "help"@);
    let flags = seq![
        "--color"@,
        "--select"@,
        "--ignore"@,
        "--extend-select"@,
        "--extend-ignore"@,
        "--exclude"@,
        "--extend-exclude"@,
        "--per-file-ignores"@,
        "--extend-per-file-ignores"@,
        "--config"@,
        "--stdin-filename"@,
        "--output-format"@,
        "--output-file"@,
        "-o"@,
        "--level"@,
        "--changed-files-level"@,
        "--cache-dir"@,
        "--output-path"@,
        "--explain"@,
    ];
    assert(flags[0] == "--color"@ && flags[1] == "--select"@ && flags[2] == "--ignore"@ && flags[3]
        == "--extend-select"@ && flags[4] == "--extend-ignore"@ && flags[5] == "--exclude"@
        && flags[6] == "--extend-exclude"@ && flags[7] == "--per-file-ignores"@ && flags[8]
        == "--extend-per-file-ignores"@ && flags[9] == "--config"@);
    assert(flags[10] == "--stdin-filename"@ && flags[11] == "--output-format"@ && flags[12]
        == "--output-file"@ && flags[13] == "-o"@ && flags[14] == "--level"@ && flags[15]
        == "--changed-files-level"@ && flags[16] == "--cache-dir"@ && flags[17]
        == "--output-path"@ && flags[18] == "--explain"@);
}

/// The least said of what is asked for counts.
pub proof fn law_the_quietest_flag_counts(quiet: bool, verbose: bool)
    ensures
        asked_level(true, quiet, verbose) == LogLevel::Silent,
        asked_level(false, true, verbose) == LogLevel::Quiet,
        asked_level(false, false, true) == LogLevel::Verbose,
        asked_level(false, false, false) == LogLevel::Default,
{
}

// ---------------------------------------------------------------------------
// A run
// ---------------------------------------------------------------------------

/// A run without switches checks, reports and ends with the code of the report.
pub proof fn law_a_plain_run_checks_and_reports(args: CheckArgs, code: i32)
    requires
        !args.show_files,
        !args.diff,
        !args.fix,
        !args.fix_only,
        !args.add_noqa,
        !args.watch,
        !args.exit_zero,
    ensures
        args.after(Done::Start) == Phase::Check,
        args.after(Done::Checked) == Phase::Report,
        args.after(Done::Reported(code)) == Phase::Exit(code),
{
}

/// A run that fixes does so before it checks what is left, unless nothing more is asked for. One
/// that changed something fails where that is asked for.
pub proof fn law_fixing_comes_before_checking(args: CheckArgs, changed: bool)
    requires
        !args.show_files,
        !args.diff,
        args.fix || args.fix_only,
    ensures
        args.after(Done::Start) == Phase::Fix,
        args.exit_non_zero_on_fix ==> args.after(Done::Fixed(true)) == Phase::Exit(1),
        !(changed && args.exit_non_zero_on_fix) ==> args.after(Done::Fixed(changed)) == (
        if args.fix_only {
            Phase::Exit(0)
        } else {
            Phase::Check
        }),
{
}

/// What is shown instead of a check: the files first of all, and then the changes, which fail the
/// run where there are any.
pub proof fn law_showing_comes_first(args: CheckArgs)
    ensures
        args.show_files ==> args.after(Done::Start) == Phase::ShowFiles,
        !args.show_files && args.diff ==> args.after(Done::Start) == Phase::Diff,
        args.after(Done::ShowedFiles) == Phase::Exit(0),
        args.after(Done::Diffed(true)) == Phase::Exit(1),
        args.after(Done::Diffed(false)) == Phase::Exit(0),
{
}

/// Where comments are to be added, that takes the place of the report; where files are watched, a
/// report is no end.
pub proof fn law_reports_are_the_end_unless_watched(args: CheckArgs, code: i32)
    ensures
        args.add_noqa ==> args.after(Done::Checked) == Phase::AddNoqa,
        args.after(Done::AddedNoqa) == Phase::Exit(0),
        args.watch ==> args.after(Done::Reported(code)) == Phase::Watch,
{
}

/// Changed files fail a run from a level of their own where one is given, and else from that of
/// all files.
pub proof fn law_changed_files_have_their_own_level(args: CheckArgs)
    ensures
        args.changed_files_level is Some ==> args.level_of_changed()
            == args.changed_files_level->0,
        args.changed_files_level is None ==> args.level_of_changed() == args.level,
{
}

} // verus!
