//! Fixing a file step by step, where the rules may learn more between two passes.
use crate::config::Config;
use crate::engine::{
    all_passes, fix_pass, lemma_unchanged, mode_of, one_pass, pass_notes, passes_for, CheckInput,
    FixMode, ModeView, MAX_FIX_PASSES,
};
use crate::rules::Rule;
use crate::text::strs;
use crate::types::{copy_target, fix_outcome, FixError};
use vstd::prelude::*;
use vstd::string::*;

verus! {

/// A file that is being fixed.
pub struct FixRun {
    pub path: String,
    pub mode: FixMode,
    pub text: String,
    pub changed: bool,
    /// Why a rule could not go on.
    pub error: Option<FixError>,
    /// How many passes may follow.
    pub left: u32,
}

/// What a [`FixRun`] says.
#[verifier::ext_equal]
pub struct RunView {
    pub path: Seq<char>,
    pub mode: ModeView,
    pub text: Seq<char>,
    pub changed: bool,
    pub error: Option<Seq<char>>,
    pub left: nat,
}

impl View for FixRun {
    type V = RunView;

    open spec fn view(&self) -> RunView {
        RunView {
            path: self.path@,
            mode: self.mode@,
            text: self.text@,
            changed: self.changed,
            error: match self.error {
                Some(e) => Some(e.message@),
                None => None,
            },
            left: self.left as nat,
        }
    }
}

/// A file after one more pass of rules. A pass that changes nothing or fails is the last.
pub open spec fn stepped<R: Rule>(v: RunView, rules: Seq<R>, config: Config) -> RunView {
    if v.left == 0 {
        v
    } else {
        let pass = one_pass(rules, v.path, v.mode, config, v.text, rules.len() as int);
        if pass.error is Some {
            RunView { error: pass.error, left: 0, ..v }
        } else if pass.changed {
            RunView { text: pass.text, changed: true, left: (v.left - 1) as nat, ..v }
        } else {
            RunView { left: 0, ..v }
        }
    }
}

/// A file after all passes of the same rules.
pub open spec fn run_out<R: Rule>(v: RunView, rules: Seq<R>, config: Config) -> RunView
    decreases v.left,
{
    if v.left == 0 {
        v
    } else {
        run_out(stepped(v, rules, config), rules, config)
    }
}

impl RunView {
    /// What comes of fixing a file.
    pub open spec fn outcome(self) -> Result<Option<Seq<char>>, Seq<char>> {
        match self.error {
            Some(e) => Err(e),
            None => Ok(
                if self.changed {
                    Some(self.text)
                } else {
                    None
                },
            ),
        }
    }
}

impl FixRun {
    /// A file that is to be fixed.
    pub fn start(input: &CheckInput<'_>) -> (r: FixRun)
        ensures
            r@ == (RunView {
                path: input.path@,
                mode: mode_of(*input),
                text: input.source@,
                changed: false,
                error: None,
                left: passes_for(*input),
            }),
    {
        let left: u32 = if input.fix_target.is_some() {
            1
        } else {
            MAX_FIX_PASSES
        };
        FixRun {
            path: input.path.to_owned(),
            mode: FixMode {
                ignore_noqa: input.ignore_noqa,
                target: copy_target(&input.fix_target),
            },
            text: input.source.to_owned(),
            changed: false,
            error: None,
            left,
        }
    }

    /// Whether another pass is to follow.
    pub fn goes_on(&self) -> (r: bool)
        ensures
            r == (self@.left > 0),
    {
        self.left > 0
    }

    /// Runs all rules that can fix once more.
    pub fn advance<R: Rule>(&mut self, rules: &Vec<R>, config: &Config, notes: &mut Vec<String>)
        ensures
            final(self)@ == stepped(old(self)@, rules@, *config),
            strs(final(notes)@) == if old(self)@.left == 0 {
                strs(old(notes)@)
            } else {
                strs(old(notes)@) + pass_notes(
                    rules@,
                    old(self)@.path,
                    old(self)@.mode,
                    *config,
                    old(self)@.text,
                    rules@.len() as int,
                )
            },
    {
        if self.left == 0 {
            return;
        }
        match fix_pass(
            self.path.as_str(),
            self.text.as_str(),
            &self.mode,
            rules,
            config,
            notes,
        ) {
            Ok(pass) => {
                if pass.changed {
                    self.text = pass.text;
                    self.changed = true;
                    self.left = self.left - 1;
                } else {
                    self.left = 0;
                }
            },
            Err(e) => {
                self.error = Some(e);
                self.left = 0;
            },
        }
    }

    /// The fixed text, `None` where nothing was changed, or why a rule could not go on.
    pub fn result(self) -> (r: Result<Option<String>, FixError>)
        ensures
            fix_outcome(r) == self@.outcome(),
    {
        match self.error {
            Some(e) => Err(e),
            None => if self.changed {
                Ok(Some(self.text))
            } else {
                Ok(None)
            },
        }
    }
}

/// Step by step, rules that learn nothing make the same of a file as all at once.
pub proof fn law_steps_are_passes<R: Rule>(v: RunView, rules: Seq<R>, config: Config)
    requires
        v.error is None,
    ensures
        ({
            let end = all_passes(rules, v.path, v.mode, config, v.text, v.left);
            run_out(v, rules, config).outcome() == match end.error {
                Some(e) => Err::<Option<Seq<char>>, _>(e),
                None => Ok(
                    if v.changed || end.changed {
                        Some(end.text)
                    } else {
                        None
                    },
                ),
            }
        }),
    decreases v.left,
{
    if v.left > 0 {
        let next = stepped(v, rules, config);
        if next.error is None {
            law_steps_are_passes(next, rules, config);
            lemma_unchanged(rules, v.path, v.mode, config, v.text, rules.len() as int);
        }
    }
}

/// Every step brings the end nearer, so fixing comes to an end.
pub proof fn law_fixing_comes_to_an_end<R: Rule>(v: RunView, rules: Seq<R>, config: Config)
    requires
        v.left > 0,
    ensures
        stepped(v, rules, config).left < v.left,
{
}

} // verus!
