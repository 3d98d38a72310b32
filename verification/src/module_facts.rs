//! What is known of imported names: whether they are modules.
use crate::text::eq;
use vstd::prelude::*;

verus! {

/// Whether an imported name is a module.
#[derive(Clone, Copy, PartialEq, Eq, Structural, Debug)]
pub enum ModuleCheck {
    /// The name is a module.
    Module,
    /// The name was looked for and is no module.
    NotModule,
    /// The package of the name was not found, so nothing can be said.
    Unknown,
}

/// The answer for one name of one module.
pub struct Answer {
    pub module: String,
    pub name: String,
    pub check: ModuleCheck,
}

/// What an [`Answer`] says.
#[verifier::ext_equal]
pub struct AnswerView {
    pub module: Seq<char>,
    pub name: Seq<char>,
    pub check: ModuleCheck,
}

impl View for Answer {
    type V = AnswerView;

    open spec fn view(&self) -> AnswerView {
        AnswerView { module: self.module@, name: self.name@, check: self.check }
    }
}

/// Answers to questions about names; a name without an answer is unknown.
pub struct ModuleFacts {
    pub answers: Vec<Answer>,
}

/// What is known of `name` in `module`: the first answer, or nothing.
pub open spec fn answer(
    answers: Seq<AnswerView>,
    module: Seq<char>,
    name: Seq<char>,
) -> ModuleCheck
    decreases answers.len(),
{
    if answers.len() == 0 {
        ModuleCheck::Unknown
    } else if answers[0].module == module && answers[0].name == name {
        answers[0].check
    } else {
        answer(answers.skip(1), module, name)
    }
}

impl View for ModuleFacts {
    type V = Seq<AnswerView>;

    open spec fn view(&self) -> Seq<AnswerView> {
        self.answers@.map_values(|a: Answer| a@)
    }
}

impl ModuleFacts {
    /// Facts without any answer.
    pub fn new() -> (r: ModuleFacts)
        ensures
            r@ == Seq::<AnswerView>::empty(),
    {
        let r = ModuleFacts { answers: Vec::new() };
        assert(r@ =~= Seq::<AnswerView>::empty());
        r
    }

    /// Adds an answer behind those already there.
    pub fn record(&mut self, module: &str, name: &str, check: ModuleCheck)
        ensures
            final(self)@ == old(self)@.push(
                AnswerView { module: module@, name: name@, check },
            ),
    {
        let ghost before = self@;
        self.answers.push(Answer { module: module.to_owned(), name: name.to_owned(), check });
        assert(self@ =~= before.push(AnswerView { module: module@, name: name@, check }));
    }

    /// What is known of `name` in `module`.
    pub fn check(&self, module: &str, name: &str) -> (r: ModuleCheck)
        ensures
            r == answer(self@, module@, name@),
    {
        let mut i: usize = 0;
        assert(self@.skip(0) =~= self@);
        while i < self.answers.len()
            invariant
                i <= self.answers@.len(),
                answer(self@, module@, name@) == answer(self@.skip(i as int), module@, name@),
            decreases self.answers@.len() - i,
        {
            assert(self@.skip(i as int)[0] == self.answers@[i as int]@);
            assert(self@.skip(i as int).skip(1) =~= self@.skip(i + 1));
            if eq(self.answers[i].module.as_str(), module) && eq(
                self.answers[i].name.as_str(),
                name,
            ) {
                return self.answers[i].check;
            }
            i += 1;
        }
        ModuleCheck::Unknown
    }

    /// Whether `name` is known to be a module of `module`.
    pub fn is_module(&self, module: &str, name: &str) -> (r: bool)
        ensures
            r == (answer(self@, module@, name@) == ModuleCheck::Module),
    {
        self.check(module, name) == ModuleCheck::Module
    }
}

/// The first answer on a name of a module counts; what was not asked is not known.
pub proof fn law_the_first_answer_counts(
    answers: Seq<AnswerView>,
    module: Seq<char>,
    name: Seq<char>,
    k: int,
)
    requires
        0 <= k <= answers.len(),
        forall|i: int|
            0 <= i < k ==> (#[trigger] answers[i]).module != module || answers[i].name != name,
    ensures
        k < answers.len() && answers[k].module == module && answers[k].name == name ==> answer(
            answers,
            module,
            name,
        ) == answers[k].check,
        k == answers.len() ==> answer(answers, module, name) == ModuleCheck::Unknown,
    decreases answers.len(),
{
    if k > 0 {
        let rest = answers.skip(1);
        assert(answers[0].module != module || answers[0].name != name);
        assert forall|i: int| 0 <= i < k - 1 implies (#[trigger] rest[i]).module != module
            || rest[i].name != name by {
            assert(rest[i] == answers[i + 1]);
        }
        law_the_first_answer_counts(rest, module, name, k - 1);
        if k < answers.len() {
            assert(rest[k - 1] == answers[k]);
        }
    }
}

} // verus!
