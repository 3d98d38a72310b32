//! The look of all output: colours, and how much is said.
use owo_colors::OwoColorize;
use vstd::prelude::*;
use vstd::string::*;

verus! {

/// The theme that all output uses.
pub const ACTIVE_THEME: Theme = Theme::Ruff;

/// The themes.
#[derive(Clone, Copy, Debug, PartialEq, Eq, Structural)]
pub enum Theme {
    /// Bright red errors, bright yellow warnings, bright blue arrows and bright cyan labels.
    Ruff,
}

// ---------------------------------------------------------------------------
// Escape codes
// ---------------------------------------------------------------------------

/// A text between the escape code of a colour and that of the default colour.
pub open spec fn coloured(code: Seq<char>, text: Seq<char>) -> Seq<char> {
    code + text + "\u{1b}[39m"@
}

/// A text between the escape codes for bold and for no style at all.
pub open spec fn bold(text: Seq<char>) -> Seq<char> {
    "\u{1b}[1m"@ + text + "\u{1b}[0m"@
}

/// Calls `owo_colors::OwoColorize::bright_red`: the text stands between the escape codes of
/// bright red and of the default colour.
#[verifier::external_body]
fn bright_red(text: &str) -> (r: String)
    ensures
        r@ == coloured("\u{1b}[91m"@, text@),
{
    text.bright_red().to_string()
}

/// Calls `owo_colors::OwoColorize::bright_yellow`: the text stands between the escape codes of
/// bright yellow and of the default colour.
#[verifier::external_body]
fn bright_yellow(text: &str) -> (r: String)
    ensures
        r@ == coloured("\u{1b}[93m"@, text@),
{
    text.bright_yellow().to_string()
}

/// Calls `owo_colors::OwoColorize::bright_blue`: the text stands between the escape codes of
/// bright blue and of the default colour.
#[verifier::external_body]
fn bright_blue(text: &str) -> (r: String)
    ensures
        r@ == coloured("\u{1b}[94m"@, text@),
{
    text.bright_blue().to_string()
}

/// Calls `owo_colors::OwoColorize::bright_cyan`: the text stands between the escape codes of
/// bright cyan and of the default colour.
#[verifier::external_body]
fn bright_cyan(text: &str) -> (r: String)
    ensures
        r@ == coloured("\u{1b}[96m"@, text@),
{
    text.bright_cyan().to_string()
}

/// Calls `owo_colors::OwoColorize::yellow`: the text stands between the escape codes of yellow
/// and of the default colour.
#[verifier::external_body]
fn yellow(text: &str) -> (r: String)
    ensures
        r@ == coloured("\u{1b}[33m"@, text@),
{
    text.yellow().to_string()
}

/// Calls `owo_colors::OwoColorize::cyan`: the text stands between the escape codes of cyan and of
/// the default colour.
#[verifier::external_body]
fn cyan(text: &str) -> (r: String)
    ensures
        r@ == coloured("\u{1b}[36m"@, text@),
{
    text.cyan().to_string()
}

/// Calls `owo_colors::OwoColorize::bold`: the text stands between the escape codes for bold and
/// for no style at all.
#[verifier::external_body]
fn embolden(text: &str) -> (r: String)
    ensures
        r@ == bold(text@),
{
    text.bold().to_string()
}

// ---------------------------------------------------------------------------
// Palette
// ---------------------------------------------------------------------------

/// The styles of a theme, or none where colours are off.
#[derive(Clone, Copy, Debug, PartialEq, Eq, Structural)]
pub struct Palette {
    /// Whether escape codes are written.
    pub colors: bool,
    pub theme: Theme,
}

/// The palette of the theme in use.
pub fn palette(colors: bool) -> (r: Palette)
    ensures
        r.colors == colors,
        r.theme == ACTIVE_THEME,
{
    Palette { colors, theme: ACTIVE_THEME }
}

impl Palette {
    /// The word `error`.
    pub open spec fn error_text(self, s: Seq<char>) -> Seq<char> {
        if self.colors {
            bold(coloured("\u{1b}[91m"@, s))
        } else {
            s
        }
    }

    /// The word `warning`.
    pub open spec fn warning_text(self, s: Seq<char>) -> Seq<char> {
        if self.colors {
            bold(coloured("\u{1b}[93m"@, s))
        } else {
            s
        }
    }

    /// The code of a rule in brackets.
    pub open spec fn brackets_text(self, s: Seq<char>, is_error: bool) -> Seq<char> {
        if is_error {
            self.error_text(s)
        } else {
            self.warning_text(s)
        }
    }

    /// A label such as `help`, or the star of what is fixable.
    pub open spec fn label_text(self, s: Seq<char>) -> Seq<char> {
        if self.colors {
            bold(coloured("\u{1b}[96m"@, s))
        } else {
            s
        }
    }

    /// The arrow before a location.
    pub open spec fn arrow_mark(self, s: Seq<char>) -> Seq<char> {
        if self.colors {
            bold(coloured("\u{1b}[94m"@, s))
        } else {
            s
        }
    }

    /// What is set in bold alone.
    pub open spec fn strong_text(self, s: Seq<char>) -> Seq<char> {
        if self.colors {
            bold(s)
        } else {
            s
        }
    }

    /// The label of a hint.
    pub open spec fn hint_text(self, s: Seq<char>) -> Seq<char> {
        if self.colors {
            coloured("\u{1b}[33m"@, s)
        } else {
            s
        }
    }

    /// The star in the summary.
    pub open spec fn summary_text(self) -> Seq<char> {
        if self.colors {
            coloured("\u{1b}[36m"@, "*"@)
        } else {
            "*"@
        }
    }

    /// The word `error`: bold bright red.
    pub fn error(&self, s: &str) -> (r: String)
        ensures
            r@ == self.error_text(s@),
    {
        if self.colors {
            embolden(bright_red(s).as_str())
        } else {
            s.to_owned()
        }
    }

    /// The word `warning`: bold bright yellow.
    pub fn warning(&self, s: &str) -> (r: String)
        ensures
            r@ == self.warning_text(s@),
    {
        if self.colors {
            embolden(bright_yellow(s).as_str())
        } else {
            s.to_owned()
        }
    }

    /// The code of a rule in brackets: as the level beside it.
    pub fn rule_brackets(&self, s: &str, is_error: bool) -> (r: String)
        ensures
            r@ == self.brackets_text(s@, is_error),
    {
        if is_error {
            self.error(s)
        } else {
            self.warning(s)
        }
    }

    /// The star of what is fixable: bold bright cyan.
    pub fn fixable_star(&self) -> (r: String)
        ensures
            r@ == self.label_text("*"@),
    {
        self.help_label("*")
    }

    /// The arrow before a location: bold bright blue.
    pub fn arrow(&self, s: &str) -> (r: String)
        ensures
            r@ == self.arrow_mark(s@),
    {
        if self.colors {
            embolden(bright_blue(s).as_str())
        } else {
            s.to_owned()
        }
    }

    /// The label of a help line: bold bright cyan.
    pub fn help_label(&self, s: &str) -> (r: String)
        ensures
            r@ == self.label_text(s@),
    {
        if self.colors {
            embolden(bright_cyan(s).as_str())
        } else {
            s.to_owned()
        }
    }

    /// The message of a violation: bold.
    pub fn message(&self, s: &str) -> (r: String)
        ensures
            r@ == self.strong_text(s@),
    {
        if self.colors {
            embolden(s)
        } else {
            s.to_owned()
        }
    }

    /// The label of a hint: yellow.
    pub fn hint_label(&self, s: &str) -> (r: String)
        ensures
            r@ == self.hint_text(s@),
    {
        if self.colors {
            yellow(s)
        } else {
            s.to_owned()
        }
    }

    /// The command in a hint: bold.
    pub fn hint_cmd(&self, s: &str) -> (r: String)
        ensures
            r@ == self.strong_text(s@),
    {
        self.message(s)
    }

    /// The star in the summary: cyan.
    pub fn summary_star(&self) -> (r: String)
        ensures
            r@ == self.summary_text(),
    {
        if self.colors {
            cyan("*")
        } else {
            "*".to_owned()
        }
    }

    /// The name of a flag: bold.
    pub fn flag(&self, s: &str) -> (r: String)
        ensures
            r@ == self.strong_text(s@),
    {
        self.message(s)
    }
}

/// Without colours, every style leaves the text as it is.
pub proof fn law_no_colors_no_codes(p: Palette, s: Seq<char>, is_error: bool)
    requires
        !p.colors,
    ensures
        p.error_text(s) == s,
        p.warning_text(s) == s,
        p.brackets_text(s, is_error) == s,
        p.label_text(s) == s,
        p.arrow_mark(s) == s,
        p.strong_text(s) == s,
        p.hint_text(s) == s,
        p.summary_text() == "*"@,
{
}

// ---------------------------------------------------------------------------
// Preferences
// ---------------------------------------------------------------------------

/// When to write colours.
#[derive(Clone, Copy, Debug, PartialEq, Eq, Structural)]
pub enum ColorWhen {
    /// On a terminal, unless the environment says otherwise.
    Auto,
    Always,
    Never,
}

impl Default for ColorWhen {
    fn default() -> (r: Self)
        ensures
            r == ColorWhen::Auto,
    {
        ColorWhen::Auto
    }
}

/// How much is said, from the most to the least.
#[derive(Clone, Copy, Debug, PartialEq, Eq, PartialOrd, Ord, Structural)]
pub enum LogLevel {
    /// More than usual.
    Verbose,
    Default,
    /// Only the violations.
    Quiet,
    /// Nothing at all.
    Silent,
}

impl Default for LogLevel {
    fn default() -> (r: Self)
        ensures
            r == LogLevel::Default,
    {
        LogLevel::Default
    }
}

/// What was asked for on the command line. Each preference can be set once.
#[derive(Clone, Copy, Debug, PartialEq, Eq, Structural)]
pub struct Preferences {
    pub color: Option<ColorWhen>,
    pub log: Option<LogLevel>,
}

impl Preferences {
    /// Nothing was asked for.
    pub fn new() -> (r: Preferences)
        ensures
            r.color is None,
            r.log is None,
    {
        Preferences { color: None, log: None }
    }

    /// The level that was asked for.
    pub open spec fn level(self) -> LogLevel {
        match self.log {
            Some(level) => level,
            None => LogLevel::Default,
        }
    }

    /// Whether only the violations are wanted, or nothing.
    pub open spec fn quiet(self) -> bool {
        self.level() == LogLevel::Quiet || self.level() == LogLevel::Silent
    }

    /// Whether no output is wanted.
    pub open spec fn silent(self) -> bool {
        self.level() == LogLevel::Silent
    }
}

/// Sets when to write colours, unless that was set before.
pub fn init_colors(preferences: &mut Preferences, when: ColorWhen)
    ensures
        final(preferences).log == old(preferences).log,
        final(preferences).color == if old(preferences).color is Some {
            old(preferences).color
        } else {
            Some(when)
        },
{
    if preferences.color.is_none() {
        preferences.color = Some(when);
    }
}

/// Sets how much is said, unless that was set before.
pub fn init_log_level(preferences: &mut Preferences, level: LogLevel)
    ensures
        final(preferences).color == old(preferences).color,
        final(preferences).log == if old(preferences).log is Some {
            old(preferences).log
        } else {
            Some(level)
        },
{
    if preferences.log.is_none() {
        preferences.log = Some(level);
    }
}

/// How much is said.
pub fn log_level(preferences: &Preferences) -> (r: LogLevel)
    ensures
        r == preferences.level(),
{
    match preferences.log {
        Some(level) => level,
        None => LogLevel::Default,
    }
}

/// Whether more than usual is said.
pub fn is_verbose(preferences: &Preferences) -> (r: bool)
    ensures
        r == (preferences.level() == LogLevel::Verbose),
{
    log_level(preferences) == LogLevel::Verbose
}

/// Whether hints and summaries are left out.
pub fn is_quiet(preferences: &Preferences) -> (r: bool)
    ensures
        r == preferences.quiet(),
{
    let level = log_level(preferences);
    level == LogLevel::Quiet || level == LogLevel::Silent
}

/// Whether nothing is said.
pub fn is_silent(preferences: &Preferences) -> (r: bool)
    ensures
        r == preferences.silent(),
{
    log_level(preferences) == LogLevel::Silent
}

/// What is silent is quiet too.
pub proof fn law_silent_is_quiet(preferences: Preferences)
    requires
        preferences.silent(),
    ensures
        preferences.quiet(),
{
}

/// What the environment says about colours.
pub struct Terminal {
    /// Whether `NO_COLOR` is set.
    pub no_color: bool,
    /// The value of `TERM`.
    pub term: Option<String>,
    /// Whether output goes to a terminal.
    pub is_terminal: bool,
}

/// Whether escape codes are written.
pub open spec fn colors_wanted(
    color: Option<ColorWhen>,
    no_color: bool,
    term: Option<Seq<char>>,
    is_terminal: bool,
) -> bool {
    match color {
        Some(ColorWhen::Always) => true,
        Some(ColorWhen::Never) => false,
        _ => !no_color && term != Some("dumb"@) && is_terminal,
    }
}

/// Whether escape codes are written.
pub fn colors_enabled(preferences: &Preferences, terminal: &Terminal) -> (r: bool)
    ensures
        r == colors_wanted(
            preferences.color,
            terminal.no_color,
            crate::types::opt(terminal.term),
            terminal.is_terminal,
        ),
{
    match preferences.color {
        Some(ColorWhen::Always) => true,
        Some(ColorWhen::Never) => false,
        _ => {
            let dumb = match &terminal.term {
                Some(term) => crate::text::eq(term.as_str(), "dumb"),
                None => false,
            };
            !terminal.no_color && !dumb && terminal.is_terminal
        },
    }
}

/// What is asked for decides on colours; else there are none where they are switched off, the
/// terminal cannot show them, or there is no terminal.
pub proof fn law_colours_are_asked_for(
    color: Option<ColorWhen>,
    no_color: bool,
    term: Option<Seq<char>>,
    is_terminal: bool,
)
    ensures
        color == Some(ColorWhen::Always) ==> colors_wanted(color, no_color, term, is_terminal),
        color == Some(ColorWhen::Never) ==> !colors_wanted(color, no_color, term, is_terminal),
        color != Some(ColorWhen::Always) && (no_color || !is_terminal || term == Some("dumb"@))
            ==> !colors_wanted(color, no_color, term, is_terminal),
        color != Some(ColorWhen::Never) && !no_color && is_terminal && term != Some("dumb"@)
            ==> colors_wanted(color, no_color, term, is_terminal),
{
}

/// With colours a text still stands between its codes, and the style ends behind it.
pub proof fn law_coloured_texts_hold_the_text(p: Palette, s: Seq<char>)
    requires
        p.colors,
    ensures
        p.error_text(s) == "\u{1b}[1m\u{1b}[91m"@ + s + "\u{1b}[39m\u{1b}[0m"@,
        p.warning_text(s) == "\u{1b}[1m\u{1b}[93m"@ + s + "\u{1b}[39m\u{1b}[0m"@,
        p.label_text(s) == "\u{1b}[1m\u{1b}[96m"@ + s + "\u{1b}[39m\u{1b}[0m"@,
        p.arrow_mark(s) == "\u{1b}[1m\u{1b}[94m"@ + s + "\u{1b}[39m\u{1b}[0m"@,
        p.strong_text(s) == "\u{1b}[1m"@ + s + "\u{1b}[0m"@,
        p.brackets_text(s, true) == p.error_text(s),
        p.brackets_text(s, false) == p.warning_text(s),
{
    reveal_strlit("\u{1b}[1m\u{1b}[91m");
    reveal_strlit("\u{1b}[1m\u{1b}[93m");
    reveal_strlit("\u{1b}[1m\u{1b}[96m");
    reveal_strlit("\u{1b}[1m\u{1b}[94m");
    reveal_strlit("\u{1b}[39m\u{1b}[0m");
    reveal_strlit("\u{1b}[1m");
    reveal_strlit("\u{1b}[91m");
    reveal_strlit("\u{1b}[93m");
    reveal_strlit("\u{1b}[96m");
    reveal_strlit("\u{1b}[94m");
    reveal_strlit("\u{1b}[39m");
    reveal_strlit("\u{1b}[0m");
    assert("\u{1b}[39m\u{1b}[0m"@ =~= "\u{1b}[39m"@ + "\u{1b}[0m"@);
    assert("\u{1b}[1m\u{1b}[91m"@ =~= "\u{1b}[1m"@ + "\u{1b}[91m"@);
    assert("\u{1b}[1m\u{1b}[93m"@ =~= "\u{1b}[1m"@ + "\u{1b}[93m"@);
    assert("\u{1b}[1m\u{1b}[96m"@ =~= "\u{1b}[1m"@ + "\u{1b}[96m"@);
    assert("\u{1b}[1m\u{1b}[94m"@ =~= "\u{1b}[1m"@ + "\u{1b}[94m"@);
    assert(p.error_text(s) =~= "\u{1b}[1m\u{1b}[91m"@ + s + "\u{1b}[39m\u{1b}[0m"@);
    assert(p.warning_text(s) =~= "\u{1b}[1m\u{1b}[93m"@ + s + "\u{1b}[39m\u{1b}[0m"@);
    assert(p.label_text(s) =~= "\u{1b}[1m\u{1b}[96m"@ + s + "\u{1b}[39m\u{1b}[0m"@);
    assert(p.arrow_mark(s) =~= "\u{1b}[1m\u{1b}[94m"@ + s + "\u{1b}[39m\u{1b}[0m"@);
}

/// Only silence and quiet are quiet, and only silence is silent.
pub proof fn law_quiet_is_asked_for(preferences: Preferences)
    ensures
        preferences.log == Some(LogLevel::Quiet) ==> preferences.quiet() && !preferences.silent(),
        preferences.log == Some(LogLevel::Silent) ==> preferences.quiet() && preferences.silent(),
        preferences.log == Some(LogLevel::Verbose) ==> !preferences.quiet(),
        preferences.log == Some(LogLevel::Default) ==> !preferences.quiet(),
        preferences.log is None ==> !preferences.quiet(),
{
}

} // verus!
