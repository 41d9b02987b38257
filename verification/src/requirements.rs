//! Structured, versioned requirement specifications and repository intake analysis.

use vstd::prelude::*;

use crate::error::OrchestratorError;
use crate::files::{FileStep, StorePath};
use crate::ids::EntityId;

verus! {

#[derive(Clone, Debug, Default, PartialEq, Eq)]
pub struct RequirementSpecification {
    pub goal: String,
    pub background: String,
    pub in_scope: Vec<String>,
    pub out_of_scope: Vec<String>,
    pub constraints: Vec<String>,
    pub assumptions: Vec<String>,
    pub user_scenarios: Vec<String>,
    pub acceptance_criteria: Vec<String>,
    pub risks: Vec<String>,
    pub open_questions: Vec<String>,
}

/// `name` alone where the content of that name is `absent`, else nothing.
pub open spec fn listed_if(absent: bool, name: Seq<char>) -> Seq<Seq<char>> {
    if absent {
        seq![name]
    } else {
        seq![]
    }
}

impl RequirementSpecification {
    /// The names of the required content that the specification lacks: a goal and a background
    /// that are more than white space, something in scope, and an acceptance criterion.
    pub open spec fn missing(self) -> Seq<Seq<char>> {
        listed_if(crate::text::trimmed(self.goal@).len() == 0, "goal"@) + listed_if(
            crate::text::trimmed(self.background@).len() == 0,
            "background"@,
        ) + listed_if(self.in_scope@.len() == 0, "in_scope"@) + listed_if(
            self.acceptance_criteria@.len() == 0,
            "acceptance_criteria"@,
        )
    }

    /// Accepts the specification if it lacks no required content, and else names all it lacks.
    pub fn validate(&self) -> (r: Result<(), OrchestratorError>)
        ensures
            r is Ok <==> self.missing().len() == 0,
            r matches Err(e) ==> e.is_invalid_input(
                "specification is missing required content: "@ + crate::text::joined(
                    self.missing(),
                    ", "@,
                ),
            ),
            r is Ok <==> {
                &&& exists|i: int|
                    0 <= i < self.goal@.len() && !crate::text::white_space(#[trigger] self.goal@[i])
                &&& exists|i: int|
                    0 <= i < self.background@.len() && !crate::text::white_space(
                        #[trigger] self.background@[i],
                    )
                &&& self.in_scope@.len() > 0
                &&& self.acceptance_criteria@.len() > 0
            },
            r matches Err(e) ==> e is InvalidInput && e->InvalidInput_0@
                == "specification is missing required content: "@ + crate::text::joined(
                self.missing(),
                ", "@,
            ),
    {
        proof {
            crate::text::only_white_space_trims_to_nothing(self.goal@);
            crate::text::only_white_space_trims_to_nothing(self.background@);
        }
        let mut missing: Vec<&str> = Vec::new();
        if crate::text::trim(self.goal.as_str()).as_str().is_empty() {
            missing.push("goal");
        }
        if crate::text::trim(self.background.as_str()).as_str().is_empty() {
            missing.push("background");
        }
        if self.in_scope.is_empty() {
            missing.push("in_scope");
        }
        if self.acceptance_criteria.is_empty() {
            missing.push("acceptance_criteria");
        }
        assert(crate::text::texts(missing@) =~= self.missing());
        if missing.is_empty() {
            Ok(())
        } else {
            let list = crate::text::join_texts(&missing, ", ");
            Err(
                OrchestratorError::InvalidInput(
                    "specification is missing required content: ".to_owned().concat(list.as_str()),
                ),
            )
        }
    }
}

/// One for a content that is missing, and none for one that is there.
pub open spec fn one_if(missing: bool) -> int {
    if missing {
        1
    } else {
        0
    }
}

/// What is missing is named in the order goal, background, scope, acceptance criteria: a goal or
/// background of nothing but white space, and an empty scope or list of criteria, and nothing
/// else.
pub proof fn what_is_missing_is_named(specification: RequirementSpecification)
    ensures
        ({
            let missing = specification.missing();
            let no_goal = forall|i: int|
                0 <= i < specification.goal@.len() ==> crate::text::white_space(
                    #[trigger] specification.goal@[i],
                );
            let no_background = forall|i: int|
                0 <= i < specification.background@.len() ==> crate::text::white_space(
                    #[trigger] specification.background@[i],
                );
            let no_scope = specification.in_scope@.len() == 0;
            let no_criteria = specification.acceptance_criteria@.len() == 0;
            let a = one_if(no_goal);
            let b = a + one_if(no_background);
            let c = b + one_if(no_scope);
            &&& missing.len() == c + one_if(no_criteria)
            &&& no_goal ==> missing[0] == "goal"@
            &&& no_background ==> missing[a] == "background"@
            &&& no_scope ==> missing[b] == "in_scope"@
            &&& no_criteria ==> missing[c] == "acceptance_criteria"@
        }),
{
    crate::text::only_white_space_trims_to_nothing(specification.goal@);
    crate::text::only_white_space_trims_to_nothing(specification.background@);
}

/// What the answer to a question can change, most far-reaching first.
#[derive(Clone, Copy, Debug, PartialEq, Eq, Structural)]
pub enum QuestionPriority {
    Architecture,
    Acceptance,
    Delivery,
}

impl QuestionPriority {
    /// The place of the priority in the order of asking.
    pub open spec fn rank(self) -> int {
        match self {
            QuestionPriority::Architecture => 0,
            QuestionPriority::Acceptance => 1,
            QuestionPriority::Delivery => 2,
        }
    }
}

#[derive(Clone, Debug, PartialEq, Eq)]
pub struct AnalysisQuestion {
    /// Stable semantic key used to merge equivalent questions from multiple signals.
    pub key: String,
    pub question: String,
    pub priority: QuestionPriority,
    pub rationale: String,
}

/// Some question of `questions` has this key.
pub open spec fn raises(questions: Seq<AnalysisQuestion>, key: Seq<char>) -> bool {
    exists|i: int| 0 <= i < questions.len() && (#[trigger] questions[i]).key@ == key
}

/// The questions without those whose key an earlier one has.
pub open spec fn first_of_each_key(questions: Seq<AnalysisQuestion>) -> Seq<AnalysisQuestion>
    decreases questions.len(),
{
    if questions.len() == 0 {
        questions
    } else {
        let earlier = questions.drop_last();
        if raises(earlier, questions.last().key@) {
            first_of_each_key(earlier)
        } else {
            first_of_each_key(earlier).push(questions.last())
        }
    }
}

/// The questions of this priority, in their order.
pub open spec fn of_priority(
    questions: Seq<AnalysisQuestion>,
    priority: QuestionPriority,
) -> Seq<AnalysisQuestion>
    decreases questions.len(),
{
    if questions.len() == 0 {
        questions
    } else if questions.first().priority == priority {
        seq![questions.first()] + of_priority(questions.drop_first(), priority)
    } else {
        of_priority(questions.drop_first(), priority)
    }
}

/// The questions in the order of their priorities, those of one priority in their order.
pub open spec fn by_priority(questions: Seq<AnalysisQuestion>) -> Seq<AnalysisQuestion> {
    of_priority(questions, QuestionPriority::Architecture) + of_priority(
        questions,
        QuestionPriority::Acceptance,
    ) + of_priority(questions, QuestionPriority::Delivery)
}

/// Moves all of `stack` behind `out`, the top of the stack first.
fn unload(stack: &mut Vec<AnalysisQuestion>, out: &mut Vec<AnalysisQuestion>)
    ensures
        final(stack)@.len() == 0,
        final(out)@ == old(out)@ + old(stack)@.reverse(),
{
    let ghost goal = old(out)@ + old(stack)@.reverse();
    assert(out@ + stack@.reverse() =~= goal);
    while stack.len() > 0
        invariant
            out@ + stack@.reverse() == goal,
        decreases stack.len(),
    {
        let ghost before = stack@;
        if let Some(question) = stack.pop() {
            out.push(question);
        }
        assert(before.reverse() =~= seq![before.last()] + stack@.reverse());
        assert(out@ + stack@.reverse() =~= goal);
    }
    assert(stack@.reverse() =~= seq![]);
    assert(out@ =~= goal);
}

/// Keeps the first question of each key, and orders what is left by priority.
pub fn merge_and_sort_questions(questions: &mut Vec<AnalysisQuestion>)
    ensures
        final(questions)@ == by_priority(first_of_each_key(old(questions)@)),
{
    let ghost raised = questions@;
    let ghost mut seen: int = 0;
    let mut kept: usize = 0;
    assert(raised.take(0) =~= seq![]);
    while kept < questions.len()
        invariant
            0 <= seen <= raised.len(),
            kept <= questions.len(),
            questions@ == first_of_each_key(raised.take(seen)) + raised.skip(seen),
            kept == first_of_each_key(raised.take(seen)).len(),
        decreases questions.len() - kept,
    {
        let mut known = false;
        let mut j: usize = 0;
        while j < kept
            invariant
                j <= kept < questions.len(),
                known == exists|i: int|
                    0 <= i < j && (#[trigger] questions@[i]).key@ == questions@[kept as int].key@,
            decreases kept - j,
        {
            if questions[j].key == questions[kept].key {
                known = true;
            }
            j = j + 1;
        }
        proof {
            let earlier = raised.take(seen);
            let question = raised[seen];
            assert(raised.take(seen + 1).drop_last() == earlier);
            assert(raised.take(seen + 1).last() == question);
            assert(questions@[kept as int] == question);
            lemma_first_of_each_key(earlier);
            assert(raises(first_of_each_key(earlier), question.key@) == raises(
                earlier,
                question.key@,
            ));
            assert(known == raises(first_of_each_key(earlier), question.key@)) by {
                assert forall|i: int| 0 <= i < kept implies questions@[i] == first_of_each_key(
                    earlier,
                )[i] by {}
                if known {
                    let i = choose|i: int|
                        0 <= i < kept && (#[trigger] questions@[i]).key@
                            == questions@[kept as int].key@;
                    assert(first_of_each_key(earlier)[i].key@ == question.key@);
                }
                if raises(first_of_each_key(earlier), question.key@) {
                    let i = choose|i: int|
                        0 <= i < first_of_each_key(earlier).len() && (
                        #[trigger] first_of_each_key(earlier)[i]).key@ == question.key@;
                    assert(questions@[i].key@ == questions@[kept as int].key@);
                }
            }
        }
        let ghost before = questions@;
        if known {
            questions.remove(kept);
        } else {
            kept = kept + 1;
        }
        proof {
            seen = seen + 1;
            assert(questions@ =~= first_of_each_key(raised.take(seen)) + raised.skip(seen));
        }
    }
    assert(raised.take(seen) =~= raised);
    let ghost distinct = first_of_each_key(raised);
    assert(questions@ =~= distinct);

    let mut architecture: Vec<AnalysisQuestion> = Vec::new();
    let mut acceptance: Vec<AnalysisQuestion> = Vec::new();
    let mut delivery: Vec<AnalysisQuestion> = Vec::new();
    assert(distinct.skip(distinct.len() as int) =~= seq![]);
    assert(Seq::<AnalysisQuestion>::empty().reverse() =~= seq![]);
    while questions.len() > 0
        invariant
            questions.len() <= distinct.len(),
            questions@ == distinct.take(questions.len() as int),
            architecture@.reverse() == of_priority(
                distinct.skip(questions.len() as int),
                QuestionPriority::Architecture,
            ),
            acceptance@.reverse() == of_priority(
                distinct.skip(questions.len() as int),
                QuestionPriority::Acceptance,
            ),
            delivery@.reverse() == of_priority(
                distinct.skip(questions.len() as int),
                QuestionPriority::Delivery,
            ),
        decreases questions.len(),
    {
        let ghost n = questions.len() as int;
        let ghost a = architecture@;
        let ghost b = acceptance@;
        let ghost c = delivery@;
        if let Some(question) = questions.pop() {
            assert(question == distinct[n - 1]);
            assert(distinct.skip(n - 1).first() == question);
            assert(distinct.skip(n - 1).drop_first() == distinct.skip(n));
            assert(a.push(question).reverse() =~= seq![question] + a.reverse());
            assert(b.push(question).reverse() =~= seq![question] + b.reverse());
            assert(c.push(question).reverse() =~= seq![question] + c.reverse());
            match question.priority {
                QuestionPriority::Architecture => architecture.push(question),
                QuestionPriority::Acceptance => acceptance.push(question),
                QuestionPriority::Delivery => delivery.push(question),
            }
        }
        assert(questions@ =~= distinct.take(n - 1));
    }
    assert(distinct.skip(0) =~= distinct);
    unload(&mut architecture, questions);
    unload(&mut acceptance, questions);
    unload(&mut delivery, questions);
    assert(questions@ =~= by_priority(distinct));
}

/// Keeping the first of each key keeps every key, and keeps only questions that were there.
proof fn lemma_first_of_each_key(questions: Seq<AnalysisQuestion>)
    ensures
        forall|key: Seq<char>| #[trigger]
            raises(first_of_each_key(questions), key) == raises(questions, key),
    decreases questions.len(),
{
    if questions.len() > 0 {
        let earlier = questions.drop_last();
        let last = questions.last();
        lemma_first_of_each_key(earlier);
        assert forall|key: Seq<char>| #[trigger]
            raises(first_of_each_key(questions), key) == raises(questions, key) by {
            let kept = first_of_each_key(questions);
            assert(raises(first_of_each_key(earlier), key) == raises(earlier, key));
            if raises(questions, key) {
                let i = choose|i: int|
                    0 <= i < questions.len() && (#[trigger] questions[i]).key@ == key;
                if i < earlier.len() {
                    assert(earlier[i].key@ == key);
                    let j = choose|j: int|
                        0 <= j < first_of_each_key(earlier).len() && (
                        #[trigger] first_of_each_key(earlier)[j]).key@ == key;
                    assert(kept[j].key@ == key);
                } else if raises(earlier, last.key@) {
                    assert(raises(first_of_each_key(earlier), key));
                } else {
                    assert(kept[kept.len() - 1].key@ == key);
                }
            }
            if raises(kept, key) {
                let i = choose|i: int| 0 <= i < kept.len() && (#[trigger] kept[i]).key@ == key;
                if i < first_of_each_key(earlier).len() {
                    assert(first_of_each_key(earlier)[i].key@ == key);
                    let j = choose|j: int|
                        0 <= j < earlier.len() && (#[trigger] earlier[j]).key@ == key;
                    assert(questions[j].key@ == key);
                } else {
                    assert(questions[questions.len() - 1].key@ == key);
                }
            }
        }
    }
}

impl AnalysisQuestion {
    /// The question has this key and priority, and these words.
    pub open spec fn is(
        self,
        key: Seq<char>,
        question: Seq<char>,
        priority: QuestionPriority,
        rationale: Seq<char>,
    ) -> bool {
        &&& self.key@ == key
        &&& self.question@ == question
        &&& self.priority == priority
        &&& self.rationale@ == rationale
    }

    fn new(key: &str, question: &str, priority: QuestionPriority, rationale: &str) -> (r: Self)
        ensures
            r.is(key@, question@, priority, rationale@),
    {
        AnalysisQuestion {
            key: key.to_owned(),
            question: question.to_owned(),
            priority,
            rationale: rationale.to_owned(),
        }
    }
}

/// What a read-only look at a repository tells: what was observed, what follows from it, and
/// what only the user can answer.
#[derive(Clone, Debug, Default, PartialEq, Eq)]
pub struct RepositoryAnalysis {
    pub known_facts: Vec<String>,
    pub reasonable_inferences: Vec<String>,
    pub questions_for_user: Vec<AnalysisQuestion>,
}

/// The locations below a repository's directory whose presence the analysis asks for.
pub fn repository_markers() -> (r: Vec<&'static str>)
    ensures
        crate::text::texts(r@) == seq![
            "Cargo.toml"@,
            "package.json"@,
            ".github/workflows"@,
            "README.md"@,
        ],
{
    let r: Vec<&'static str> = vec!["Cargo.toml", "package.json", ".github/workflows", "README.md"];
    assert(crate::text::texts(r@) =~= seq![
        "Cargo.toml"@,
        "package.json"@,
        ".github/workflows"@,
        "README.md"@,
    ]);
    r
}

/// What the analysis observes where these locations are present.
pub open spec fn facts_of(present: Seq<Seq<char>>) -> Seq<Seq<char>> {
    listed_if(
        present.contains("Cargo.toml"@),
        "Cargo.toml is present (Rust project or workspace)."@,
    ) + listed_if(
        present.contains("package.json"@),
        "package.json is present (Node.js package or workspace)."@,
    ) + listed_if(
        present.contains(".github/workflows"@),
        "GitHub Actions workflow configuration is present."@,
    ) + listed_if(present.contains("README.md"@), "README.md is present."@)
}

/// What the analysis infers where these locations are present.
pub open spec fn inferences_of(present: Seq<Seq<char>>) -> Seq<Seq<char>> {
    listed_if(
        present.contains("Cargo.toml"@) && present.contains("package.json"@),
        "Changes may need validation in both Rust and TypeScript toolchains."@,
    )
}

/// The questions that every intake puts to the user, in the order of asking.
pub open spec fn are_intake_questions(questions: Seq<AnalysisQuestion>) -> bool {
    &&& questions.len() == 4
    &&& questions[0].is(
        "architecture-boundary"@,
        "Which component owns this behavior and may public interfaces or storage schemas change?"@,
        QuestionPriority::Architecture,
        "The answer changes component boundaries and migration design."@,
    )
    &&& questions[1].is(
        "compatibility"@,
        "What backward-compatibility, platform, security, or performance constraints apply?"@,
        QuestionPriority::Architecture,
        "These constraints can rule out implementation approaches."@,
    )
    &&& questions[2].is(
        "acceptance-evidence"@,
        "What observable outcomes and test evidence are required for acceptance?"@,
        QuestionPriority::Acceptance,
        "The answer determines completion and final verification."@,
    )
    &&& questions[3].is(
        "delivery"@,
        "Are there delivery milestones or explicitly excluded follow-up items?"@,
        QuestionPriority::Delivery,
        "This clarifies sequencing without blocking core architecture."@,
    )
}

/// Tells whether `name` is among the locations that are present.
fn is_present(present: &Vec<String>, name: &str) -> (r: bool)
    ensures
        r == present.deep_view().contains(name@),
{
    let mut found = false;
    let mut i: usize = 0;
    while i < present.len()
        invariant
            i <= present.len(),
            found == exists|j: int| 0 <= j < i && (#[trigger] present.deep_view()[j]) == name@,
        decreases present.len() - i,
    {
        if crate::text::same_text(present[i].as_str(), name) {
            found = true;
            assert(present.deep_view()[i as int] == name@);
        }
        i = i + 1;
    }
    found
}

/// Performs read-only intake analysis of a repository, given whether its path is a directory
/// and which of the [`repository_markers`] are present in it. It deliberately reports
/// observations separately from inference, and de-duplicates questions by semantic key before
/// priority ordering.
pub fn analyze_repository(is_directory: bool, present: &Vec<String>) -> (r: Result<
    RepositoryAnalysis,
    OrchestratorError,
>)
    ensures
        r is Ok <==> is_directory,
        r matches Err(e) ==> e.is_invalid_input("repository path is not a directory"@),
        r matches Ok(analysis) ==> {
            &&& analysis.known_facts.deep_view() == facts_of(present.deep_view())
            &&& analysis.reasonable_inferences.deep_view() == inferences_of(present.deep_view())
            &&& are_intake_questions(analysis.questions_for_user@)
        },
        r matches Err(e) ==> e is InvalidInput && e->InvalidInput_0@
            == "repository path is not a directory"@,
        r matches Ok(analysis) ==> {
            let facts = analysis.known_facts.deep_view();
            let there = present.deep_view();
            let a = one_if(there.contains("Cargo.toml"@));
            let b = a + one_if(there.contains("package.json"@));
            let c = b + one_if(there.contains(".github/workflows"@));
            &&& facts.len() == c + one_if(there.contains("README.md"@))
            &&& there.contains("Cargo.toml"@) ==> facts[0]
                == "Cargo.toml is present (Rust project or workspace)."@
            &&& there.contains("package.json"@) ==> facts[a]
                == "package.json is present (Node.js package or workspace)."@
            &&& there.contains(".github/workflows"@) ==> facts[b]
                == "GitHub Actions workflow configuration is present."@
            &&& there.contains("README.md"@) ==> facts[c] == "README.md is present."@
        },
        r matches Ok(analysis) ==> {
            let inferences = analysis.reasonable_inferences.deep_view();
            let both = present.deep_view().contains("Cargo.toml"@)
                && present.deep_view().contains("package.json"@);
            &&& inferences.len() == one_if(both)
            &&& both ==> inferences[0]
                == "Changes may need validation in both Rust and TypeScript toolchains."@
        },
{
    if !is_directory {
        return Err(OrchestratorError::invalid_input("repository path is not a directory"));
    }
    let mut facts: Vec<String> = Vec::new();
    let mut inferences: Vec<String> = Vec::new();
    if is_present(present, "Cargo.toml") {
        facts.push("Cargo.toml is present (Rust project or workspace).".to_owned());
    }
    if is_present(present, "package.json") {
        facts.push("package.json is present (Node.js package or workspace).".to_owned());
    }
    if is_present(present, ".github/workflows") {
        facts.push("GitHub Actions workflow configuration is present.".to_owned());
    }
    if is_present(present, "README.md") {
        facts.push("README.md is present.".to_owned());
    }
    if is_present(present, "Cargo.toml") && is_present(present, "package.json") {
        inferences.push(
            "Changes may need validation in both Rust and TypeScript toolchains.".to_owned(),
        );
    }
    assert(facts.deep_view() =~= facts_of(present.deep_view()));
    assert(inferences.deep_view() =~= inferences_of(present.deep_view()));

    let mut questions: Vec<AnalysisQuestion> = Vec::new();
    questions.push(
        AnalysisQuestion::new(
            "architecture-boundary",
            "Which component owns this behavior and may public interfaces or storage schemas change?",
            QuestionPriority::Architecture,
            "The answer changes component boundaries and migration design.",
        ),
    );
    questions.push(
        AnalysisQuestion::new(
            "acceptance-evidence",
            "What observable outcomes and test evidence are required for acceptance?",
            QuestionPriority::Acceptance,
            "The answer determines completion and final verification.",
        ),
    );
    questions.push(
        AnalysisQuestion::new(
            "compatibility",
            "What backward-compatibility, platform, security, or performance constraints apply?",
            QuestionPriority::Architecture,
            "These constraints can rule out implementation approaches.",
        ),
    );
    questions.push(
        AnalysisQuestion::new(
            "delivery",
            "Are there delivery milestones or explicitly excluded follow-up items?",
            QuestionPriority::Delivery,
            "This clarifies sequencing without blocking core architecture.",
        ),
    );
    proof {
        lemma_four_questions_in_order(questions@);
    }
    merge_and_sort_questions(&mut questions);
    Ok(
        RepositoryAnalysis {
            known_facts: facts,
            reasonable_inferences: inferences,
            questions_for_user: questions,
        },
    )
}

/// Four questions with the intake keys, in this order of priorities, are all kept; the second
/// of the two on architecture moves up.
proof fn lemma_four_questions_in_order(q: Seq<AnalysisQuestion>)
    requires
        q.len() == 4,
        q[0].key@ == "architecture-boundary"@,
        q[0].priority == QuestionPriority::Architecture,
        q[1].key@ == "acceptance-evidence"@,
        q[1].priority == QuestionPriority::Acceptance,
        q[2].key@ == "compatibility"@,
        q[2].priority == QuestionPriority::Architecture,
        q[3].key@ == "delivery"@,
        q[3].priority == QuestionPriority::Delivery,
    ensures
        by_priority(first_of_each_key(q)) == seq![q[0], q[2], q[1], q[3]],
{
    reveal_strlit("architecture-boundary");
    reveal_strlit("acceptance-evidence");
    reveal_strlit("compatibility");
    reveal_strlit("delivery");
    assert("architecture-boundary"@[1] == 'r');
    assert("acceptance-evidence"@[1] == 'c');
    assert("compatibility"@[1] == 'o');
    assert("delivery"@[1] == 'e');
    assert(distinct_keys(q));
    lemma_distinct_keys_are_kept(q);
    let q1 = q.drop_first();
    let q2 = q1.drop_first();
    let q3 = q2.drop_first();
    assert forall|p: QuestionPriority| #[trigger]
        of_priority(q, p) == (if p == QuestionPriority::Architecture {
            seq![q[0], q[2]]
        } else if p == QuestionPriority::Acceptance {
            seq![q[1]]
        } else {
            seq![q[3]]
        }) by {
        reveal_with_fuel(of_priority, 5);
        assert(q1.first() == q[1] && q2.first() == q[2] && q3.first() == q[3]);
        assert(q3.drop_first().len() == 0);
        assert(of_priority(q, p) =~= (if p == QuestionPriority::Architecture {
            seq![q[0], q[2]]
        } else if p == QuestionPriority::Acceptance {
            seq![q[1]]
        } else {
            seq![q[3]]
        }));
    }
    assert(by_priority(q) =~= seq![q[0], q[2], q[1], q[3]]);
}

/// No two of the questions have the same key.
pub open spec fn distinct_keys(questions: Seq<AnalysisQuestion>) -> bool {
    forall|i: int, j: int|
        0 <= i < j < questions.len() ==> (#[trigger] questions[i]).key@ != (
        #[trigger] questions[j]).key@
}

/// `question` is the first of `questions` that has its key.
pub open spec fn is_first_of_its_key(
    questions: Seq<AnalysisQuestion>,
    question: AnalysisQuestion,
) -> bool {
    exists|f: int|
        0 <= f < questions.len() && #[trigger] questions[f] == question && !raises(
            questions.take(f),
            question.key@,
        )
}

proof fn lemma_kept_are_first(questions: Seq<AnalysisQuestion>)
    ensures
        distinct_keys(first_of_each_key(questions)),
        forall|k: int|
            0 <= k < first_of_each_key(questions).len() ==> is_first_of_its_key(
                questions,
                #[trigger] first_of_each_key(questions)[k],
            ),
    decreases questions.len(),
{
    if questions.len() > 0 {
        let earlier = questions.drop_last();
        let last = questions.last();
        let kept = first_of_each_key(questions);
        let before = first_of_each_key(earlier);
        lemma_kept_are_first(earlier);
        lemma_first_of_each_key(earlier);
        assert forall|k: int| 0 <= k < kept.len() implies is_first_of_its_key(
            questions,
            #[trigger] kept[k],
        ) by {
            if k < before.len() {
                assert(is_first_of_its_key(earlier, before[k]));
                let f = choose|f: int|
                    0 <= f < earlier.len() && #[trigger] earlier[f] == before[k] && !raises(
                        earlier.take(f),
                        before[k].key@,
                    );
                assert(questions[f] == kept[k]);
                assert(questions.take(f) == earlier.take(f));
            } else {
                assert(questions[questions.len() - 1] == kept[k]);
                assert(questions.take(questions.len() - 1) == earlier);
            }
        }
        assert forall|i: int, j: int| 0 <= i < j < kept.len() implies (#[trigger] kept[i]).key@ != (
        #[trigger] kept[j]).key@ by {
            if j == before.len() {
                assert(raises(before, last.key@) == raises(earlier, last.key@));
                assert(before[i] == kept[i]);
                if kept[i].key@ == last.key@ {
                    assert(before[i].key@ == last.key@);
                }
            } else {
                assert(before[i] == kept[i] && before[j] == kept[j]);
            }
        }
    }
}

proof fn lemma_of_priority(questions: Seq<AnalysisQuestion>, priority: QuestionPriority)
    ensures
        forall|i: int|
            0 <= i < of_priority(questions, priority).len() ==> {
                &&& (#[trigger] of_priority(questions, priority)[i]).priority == priority
                &&& questions.contains(of_priority(questions, priority)[i])
            },
        forall|q: AnalysisQuestion| #[trigger]
            questions.contains(q) && q.priority == priority ==> of_priority(
                questions,
                priority,
            ).contains(q),
        distinct_keys(questions) ==> distinct_keys(of_priority(questions, priority)),
    decreases questions.len(),
{
    if questions.len() > 0 {
        let first = questions.first();
        let rest = questions.drop_first();
        let chosen = of_priority(questions, priority);
        let later = of_priority(rest, priority);
        lemma_of_priority(rest, priority);
        assert forall|i: int| 0 <= i < rest.len() implies questions.contains(
            #[trigger] rest[i],
        ) by {
            assert(questions[i + 1] == rest[i]);
        }
        assert(questions.contains(first)) by {
            assert(questions[0] == first);
        }
        let shift: int = if first.priority == priority {
            1
        } else {
            0
        };
        assert forall|i: int| 0 <= i < chosen.len() implies {
            &&& (#[trigger] chosen[i]).priority == priority
            &&& questions.contains(chosen[i])
        } by {
            if i >= shift {
                assert(chosen[i] == later[i - shift]);
            }
        }
        assert forall|q: AnalysisQuestion| #[trigger]
            questions.contains(q) && q.priority == priority implies chosen.contains(q) by {
            let i = choose|i: int| 0 <= i < questions.len() && questions[i] == q;
            if i == 0 {
                assert(chosen[0] == q);
            } else {
                assert(rest[i - 1] == q);
                assert(rest.contains(q));
                let j = choose|j: int| 0 <= j < later.len() && later[j] == q;
                assert(chosen[j + shift] == q);
            }
        }
        if distinct_keys(questions) {
            assert forall|i: int, j: int| 0 <= i < j < rest.len() implies (#[trigger] rest[i]).key@
                != (#[trigger] rest[j]).key@ by {
                assert(questions[i + 1].key@ != questions[j + 1].key@);
            }
            assert forall|i: int, j: int| 0 <= i < j < chosen.len() implies (
            #[trigger] chosen[i]).key@ != (#[trigger] chosen[j]).key@ by {
                if i < shift {
                    assert(chosen[j] == later[j - shift]);
                    let k = choose|k: int| 0 <= k < rest.len() && rest[k] == later[j - shift];
                    assert(questions[0].key@ != questions[k + 1].key@);
                } else {
                    assert(chosen[i] == later[i - shift] && chosen[j] == later[j - shift]);
                }
            }
        }
    }
}

proof fn lemma_of_priority_adds(
    a: Seq<AnalysisQuestion>,
    b: Seq<AnalysisQuestion>,
    priority: QuestionPriority,
)
    ensures
        of_priority(a + b, priority) == of_priority(a, priority) + of_priority(b, priority),
    decreases a.len(),
{
    if a.len() == 0 {
        assert(a + b =~= b);
        assert(of_priority(a + b, priority) =~= of_priority(a, priority) + of_priority(b, priority));
    } else {
        lemma_of_priority_adds(a.drop_first(), b, priority);
        assert((a + b).drop_first() =~= a.drop_first() + b);
        assert((a + b).first() == a.first());
        assert(of_priority(a + b, priority) =~= of_priority(a, priority) + of_priority(b, priority));
    }
}

proof fn lemma_of_priority_of_one(
    questions: Seq<AnalysisQuestion>,
    has: QuestionPriority,
    asked: QuestionPriority,
)
    requires
        forall|i: int| 0 <= i < questions.len() ==> (#[trigger] questions[i]).priority == has,
    ensures
        of_priority(questions, asked) == if has == asked {
            questions
        } else {
            seq![]
        },
    decreases questions.len(),
{
    if questions.len() > 0 {
        assert forall|i: int| 0 <= i < questions.drop_first().len() implies (
        #[trigger] questions.drop_first()[i]).priority == has by {
            assert(questions[i + 1].priority == has);
        }
        lemma_of_priority_of_one(questions.drop_first(), has, asked);
        assert(questions[0].priority == has);
        assert(seq![questions.first()] + questions.drop_first() =~= questions);
    } else {
        assert(questions =~= seq![]);
    }
}

/// The merged questions are asked once per key, most far-reaching priority first.
pub proof fn merged_questions_are_distinct_and_ordered(questions: Seq<AnalysisQuestion>)
    ensures
        distinct_keys(by_priority(first_of_each_key(questions))),
        forall|i: int, j: int|
            0 <= i < j < by_priority(first_of_each_key(questions)).len() ==> (
            #[trigger] by_priority(first_of_each_key(questions))[i]).priority.rank() <= (
            #[trigger] by_priority(first_of_each_key(questions))[j]).priority.rank(),
        forall|i: int, j: int|
            0 <= i < j < by_priority(first_of_each_key(questions)).len() ==> (
            #[trigger] by_priority(first_of_each_key(questions))[i]).key@ != (
            #[trigger] by_priority(first_of_each_key(questions))[j]).key@,
{
    let d = first_of_each_key(questions);
    lemma_kept_are_first(questions);
    lemma_of_priority(d, QuestionPriority::Architecture);
    lemma_of_priority(d, QuestionPriority::Acceptance);
    lemma_of_priority(d, QuestionPriority::Delivery);
    let a = of_priority(d, QuestionPriority::Architecture);
    let b = of_priority(d, QuestionPriority::Acceptance);
    let c = of_priority(d, QuestionPriority::Delivery);
    let m = by_priority(d);
    assert forall|i: int, j: int| 0 <= i < j < m.len() implies (#[trigger] m[i]).key@ != (
    #[trigger] m[j]).key@ && m[i].priority.rank() <= m[j].priority.rank() by {
        if i < a.len() {
            assert(m[i] == a[i]);
        } else if i < a.len() + b.len() {
            assert(m[i] == b[i - a.len()]);
        } else {
            assert(m[i] == c[i - a.len() - b.len()]);
        }
        if j < a.len() {
            assert(m[j] == a[j]);
        } else if j < a.len() + b.len() {
            assert(m[j] == b[j - a.len()]);
        } else {
            assert(m[j] == c[j - a.len() - b.len()]);
        }
        if m[i].priority != m[j].priority {
            let x = choose|x: int| 0 <= x < d.len() && d[x] == m[i];
            let y = choose|y: int| 0 <= y < d.len() && d[y] == m[j];
            assert(x != y);
            if x < y {
                assert(d[x].key@ != d[y].key@);
            } else {
                assert(d[y].key@ != d[x].key@);
            }
        }
    }
}

/// Merging loses no key, and of the questions with one key it keeps the one raised first.
pub proof fn merging_keeps_the_first_question_of_each_key(
    questions: Seq<AnalysisQuestion>,
    key: Seq<char>,
)
    ensures
        raises(by_priority(first_of_each_key(questions)), key) == raises(questions, key),
        forall|i: int|
            0 <= i < by_priority(first_of_each_key(questions)).len() ==> is_first_of_its_key(
                questions,
                #[trigger] by_priority(first_of_each_key(questions))[i],
            ),
{
    let d = first_of_each_key(questions);
    lemma_kept_are_first(questions);
    lemma_first_of_each_key(questions);
    lemma_of_priority(d, QuestionPriority::Architecture);
    lemma_of_priority(d, QuestionPriority::Acceptance);
    lemma_of_priority(d, QuestionPriority::Delivery);
    let a = of_priority(d, QuestionPriority::Architecture);
    let b = of_priority(d, QuestionPriority::Acceptance);
    let c = of_priority(d, QuestionPriority::Delivery);
    let m = by_priority(d);
    assert forall|i: int| 0 <= i < m.len() implies d.contains(#[trigger] m[i]) by {
        if i < a.len() {
            assert(m[i] == a[i]);
        } else if i < a.len() + b.len() {
            assert(m[i] == b[i - a.len()]);
        } else {
            assert(m[i] == c[i - a.len() - b.len()]);
        }
    }
    assert forall|i: int| 0 <= i < m.len() implies is_first_of_its_key(
        questions,
        #[trigger] m[i],
    ) by {
        let k = choose|k: int| 0 <= k < d.len() && d[k] == m[i];
        assert(is_first_of_its_key(questions, d[k]));
    }
    assert(raises(d, key) == raises(questions, key));
    if raises(d, key) {
        let k = choose|k: int| 0 <= k < d.len() && (#[trigger] d[k]).key@ == key;
        assert(d.contains(d[k]));
        match d[k].priority {
            QuestionPriority::Architecture => {
                let i = choose|i: int| 0 <= i < a.len() && a[i] == d[k];
                assert(m[i].key@ == key);
            },
            QuestionPriority::Acceptance => {
                let i = choose|i: int| 0 <= i < b.len() && b[i] == d[k];
                assert(m[a.len() + i].key@ == key);
            },
            QuestionPriority::Delivery => {
                let i = choose|i: int| 0 <= i < c.len() && c[i] == d[k];
                assert(m[a.len() + b.len() + i].key@ == key);
            },
        }
    }
    if raises(m, key) {
        let i = choose|i: int| 0 <= i < m.len() && (#[trigger] m[i]).key@ == key;
        let k = choose|k: int| 0 <= k < d.len() && d[k] == m[i];
        assert(d[k].key@ == key);
    }
}

proof fn lemma_distinct_keys_are_kept(questions: Seq<AnalysisQuestion>)
    requires
        distinct_keys(questions),
    ensures
        first_of_each_key(questions) == questions,
    decreases questions.len(),
{
    if questions.len() > 0 {
        let earlier = questions.drop_last();
        assert forall|i: int, j: int| 0 <= i < j < earlier.len() implies (
        #[trigger] earlier[i]).key@ != (#[trigger] earlier[j]).key@ by {
            assert(questions[i].key@ != questions[j].key@);
        }
        lemma_distinct_keys_are_kept(earlier);
        if raises(earlier, questions.last().key@) {
            let i = choose|i: int|
                0 <= i < earlier.len() && (#[trigger] earlier[i]).key@ == questions.last().key@;
            assert(questions[i].key@ != questions[questions.len() - 1].key@);
        }
        assert(first_of_each_key(questions) =~= questions);
    }
}

/// Merging what was merged changes nothing.
pub proof fn merging_is_idempotent(questions: Seq<AnalysisQuestion>)
    ensures
        ({
            let merged = by_priority(first_of_each_key(questions));
            by_priority(first_of_each_key(merged)) == merged
        }),
{
    let d = first_of_each_key(questions);
    let m = by_priority(d);
    merged_questions_are_distinct_and_ordered(questions);
    lemma_distinct_keys_are_kept(m);
    let a = of_priority(d, QuestionPriority::Architecture);
    let b = of_priority(d, QuestionPriority::Acceptance);
    let c = of_priority(d, QuestionPriority::Delivery);
    lemma_of_priority(d, QuestionPriority::Architecture);
    lemma_of_priority(d, QuestionPriority::Acceptance);
    lemma_of_priority(d, QuestionPriority::Delivery);
    assert forall|p: QuestionPriority| #[trigger] of_priority(m, p) == of_priority(d, p) by {
        lemma_of_priority_adds(a + b, c, p);
        lemma_of_priority_adds(a, b, p);
        lemma_of_priority_of_one(a, QuestionPriority::Architecture, p);
        lemma_of_priority_of_one(b, QuestionPriority::Acceptance, p);
        lemma_of_priority_of_one(c, QuestionPriority::Delivery, p);
        assert(of_priority(m, p) =~= of_priority(d, p));
    }
}

/// Each marker that is present has its sentence among the facts, and no other marker has: one is
/// there if and only if the other is, whatever else is present. The inference is drawn if and only
/// if both toolchains are there.
pub proof fn facts_are_those_of_the_markers(present: Seq<Seq<char>>)
    ensures
        facts_of(present).contains("Cargo.toml is present (Rust project or workspace)."@)
            <==> present.contains("Cargo.toml"@),
        facts_of(present).contains("package.json is present (Node.js package or workspace)."@)
            <==> present.contains("package.json"@),
        facts_of(present).contains("GitHub Actions workflow configuration is present."@)
            <==> present.contains(".github/workflows"@),
        facts_of(present).contains("README.md is present."@) <==> present.contains("README.md"@),
        forall|i: int, j: int|
            0 <= i < j < facts_of(present).len() ==> (#[trigger] facts_of(present)[i]) != (
            #[trigger] facts_of(present)[j]),
        facts_of(present).len() == one_if(present.contains("Cargo.toml"@)) + one_if(
            present.contains("package.json"@),
        ) + one_if(present.contains(".github/workflows"@)) + one_if(
            present.contains("README.md"@),
        ),
        inferences_of(present).contains(
            "Changes may need validation in both Rust and TypeScript toolchains."@,
        ) <==> present.contains("Cargo.toml"@) && present.contains("package.json"@),
        inferences_of(present).len() <= 1,
{
    reveal_strlit("Cargo.toml is present (Rust project or workspace).");
    reveal_strlit("package.json is present (Node.js package or workspace).");
    reveal_strlit("GitHub Actions workflow configuration is present.");
    reveal_strlit("README.md is present.");
    assert("Cargo.toml is present (Rust project or workspace)."@[0] == 'C');
    assert("package.json is present (Node.js package or workspace)."@[0] == 'p');
    assert("GitHub Actions workflow configuration is present."@[0] == 'G');
    assert("README.md is present."@[0] == 'R');
    let facts = facts_of(present);
    let a = one_if(present.contains("Cargo.toml"@));
    let b = a + one_if(present.contains("package.json"@));
    let c = b + one_if(present.contains(".github/workflows"@));
    if present.contains("Cargo.toml"@) {
        assert(facts[0] == "Cargo.toml is present (Rust project or workspace)."@);
    }
    if present.contains("package.json"@) {
        assert(facts[a] == "package.json is present (Node.js package or workspace)."@);
    }
    if present.contains(".github/workflows"@) {
        assert(facts[b] == "GitHub Actions workflow configuration is present."@);
    }
    if present.contains("README.md"@) {
        assert(facts[c] == "README.md is present."@);
    }
    if present.contains("Cargo.toml"@) && present.contains("package.json"@) {
        assert(inferences_of(present)[0]
            == "Changes may need validation in both Rust and TypeScript toolchains."@);
    }
}

/// The intake asks about boundaries and compatibility first, then about the evidence for
/// acceptance, then about delivery, each in these words and for these reasons.
pub proof fn intake_questions_are_in_order(questions: Seq<AnalysisQuestion>)
    requires
        are_intake_questions(questions),
    ensures
        questions.len() == 4,
        questions[0].priority is Architecture && questions[1].priority is Architecture,
        questions[2].priority is Acceptance && questions[3].priority is Delivery,
        questions[0].key@ == "architecture-boundary"@,
        questions[1].key@ == "compatibility"@,
        questions[2].key@ == "acceptance-evidence"@,
        questions[3].key@ == "delivery"@,
        questions[0].question@
            == "Which component owns this behavior and may public interfaces or storage schemas change?"@,
        questions[1].question@
            == "What backward-compatibility, platform, security, or performance constraints apply?"@,
        questions[2].question@
            == "What observable outcomes and test evidence are required for acceptance?"@,
        questions[3].question@
            == "Are there delivery milestones or explicitly excluded follow-up items?"@,
        questions[0].rationale@ == "The answer changes component boundaries and migration design."@,
        questions[1].rationale@ == "These constraints can rule out implementation approaches."@,
        questions[2].rationale@ == "The answer determines completion and final verification."@,
        questions[3].rationale@ == "This clarifies sequencing without blocking core architecture."@,
{
}

/// The question `a` may stand before the question `b`: those on architecture come first, those on
/// acceptance next, those on delivery last.
pub open spec fn may_precede(a: QuestionPriority, b: QuestionPriority) -> bool {
    match b {
        QuestionPriority::Architecture => a is Architecture,
        QuestionPriority::Acceptance => !(a is Delivery),
        QuestionPriority::Delivery => true,
    }
}

/// Merging nothing gives nothing. One more question changes nothing where an earlier one has its
/// key; else it comes in behind every merged question of its priority or a more far-reaching one,
/// and before all others, and no other question moves.
pub proof fn merging_one_more_question(
    questions: Seq<AnalysisQuestion>,
    question: AnalysisQuestion,
)
    ensures
        by_priority(first_of_each_key(Seq::<AnalysisQuestion>::empty())).len() == 0,
        ({
            let merged = by_priority(first_of_each_key(questions));
            let more = by_priority(first_of_each_key(questions.push(question)));
            if exists|i: int|
                0 <= i < questions.len() && (#[trigger] questions[i]).key@ == question.key@ {
                more == merged
            } else {
                exists|cut: int|
                    {
                        &&& 0 <= cut <= merged.len()
                        &&& more == #[trigger] merged.insert(cut, question)
                        &&& forall|i: int|
                            0 <= i < cut ==> may_precede(
                                (#[trigger] merged[i]).priority,
                                question.priority,
                            )
                        &&& forall|i: int|
                            cut <= i < merged.len() ==> !may_precede(
                                (#[trigger] merged[i]).priority,
                                question.priority,
                            )
                    }
            }
        }),
{
    let d = first_of_each_key(questions);
    let all = questions.push(question);
    assert(all.drop_last() =~= questions);
    assert(all.last() == question);
    if !(exists|i: int|
        0 <= i < questions.len() && (#[trigger] questions[i]).key@ == question.key@) {
        assert(!raises(questions, question.key@));
        let one = seq![question];
        assert(d.push(question) =~= d + one);
        assert forall|p: QuestionPriority| #[trigger]
            of_priority(d + one, p) == of_priority(d, p) + (if question.priority == p {
                one
            } else {
                Seq::<AnalysisQuestion>::empty()
            }) by {
            lemma_of_priority_adds(d, one, p);
            assert(one.drop_first() =~= Seq::<AnalysisQuestion>::empty());
            assert(of_priority(Seq::<AnalysisQuestion>::empty(), p).len() == 0);
            assert(of_priority(one, p) =~= (if question.priority == p {
                one
            } else {
                Seq::<AnalysisQuestion>::empty()
            }));
        }
        let a = of_priority(d, QuestionPriority::Architecture);
        let b = of_priority(d, QuestionPriority::Acceptance);
        let c = of_priority(d, QuestionPriority::Delivery);
        lemma_of_priority(d, QuestionPriority::Architecture);
        lemma_of_priority(d, QuestionPriority::Acceptance);
        lemma_of_priority(d, QuestionPriority::Delivery);
        let merged = by_priority(d);
        let cut: int = match question.priority {
            QuestionPriority::Architecture => a.len() as int,
            QuestionPriority::Acceptance => (a.len() + b.len()) as int,
            QuestionPriority::Delivery => merged.len() as int,
        };
        assert forall|i: int| 0 <= i < merged.len() implies (if i < a.len() {
            merged[i].priority is Architecture
        } else if i < a.len() + b.len() {
            merged[i].priority is Acceptance
        } else {
            (#[trigger] merged[i]).priority is Delivery
        }) by {
            if i < a.len() {
                assert(merged[i] == a[i]);
            } else if i < a.len() + b.len() {
                assert(merged[i] == b[i - a.len()]);
            } else {
                assert(merged[i] == c[i - a.len() - b.len()]);
            }
        }
        assert(by_priority(d + one) =~= merged.insert(cut, question));
    }
}

/// One line per value: a bullet and the trimmed value.
pub open spec fn bullets(values: Seq<Seq<char>>) -> Seq<char>
    decreases values.len(),
{
    if values.len() == 0 {
        seq![]
    } else {
        bullets(values.drop_last()) + "- "@ + crate::text::trimmed(values.last()) + "\n"@
    }
}

/// A titled list of a specification document.
pub open spec fn section(title: Seq<char>, values: Seq<Seq<char>>) -> Seq<char> {
    "## "@ + title + "\n\n"@ + if values.len() == 0 {
        "- None.\n\n"@
    } else {
        bullets(values) + "\n"@
    }
}

/// The head of a specification document: identity, status, goal and background.
pub open spec fn document_head(
    requirement_id: EntityId,
    version: int,
    goal: Seq<char>,
    background: Seq<char>,
) -> Seq<char> {
    "# Requirement Specification\n\n- Requirement: `"@ + crate::ids::hyphenated(
        requirement_id.value,
    ) + "`\n- Version: `"@ + crate::text::signed_decimal(version)
        + "`\n- Status: draft\n\n## Goal\n\n"@ + crate::text::trimmed(goal)
        + "\n\n## Background\n\n"@ + crate::text::trimmed(background) + "\n\n"@
}

impl RequirementSpecification {
    /// The document of this specification, as the given version of the requirement.
    pub open spec fn document(self, requirement_id: EntityId, version: int) -> Seq<char> {
        document_head(requirement_id, version, self.goal@, self.background@) + section(
            "In Scope"@,
            self.in_scope.deep_view(),
        ) + section("Out of Scope"@, self.out_of_scope.deep_view()) + section(
            "Constraints"@,
            self.constraints.deep_view(),
        ) + section("Assumptions"@, self.assumptions.deep_view()) + section(
            "User Scenarios"@,
            self.user_scenarios.deep_view(),
        ) + section("Acceptance Criteria"@, self.acceptance_criteria.deep_view()) + section(
            "Risks"@,
            self.risks.deep_view(),
        ) + section("Open Questions"@, self.open_questions.deep_view())
    }
}

/// Appends a titled list to the document.
fn push_section(output: &mut String, title: &str, values: &Vec<String>)
    ensures
        final(output)@ == old(output)@ + section(title@, values.deep_view()),
{
    output.append("## ");
    output.append(title);
    output.append("\n\n");
    if values.is_empty() {
        output.append("- None.\n\n");
        assert(output@ =~= old(output)@ + section(title@, values.deep_view()));
    } else {
        let ghost head = output@;
        let mut i: usize = 0;
        assert(values.deep_view().take(0) =~= seq![]);
        assert(output@ =~= head + bullets(values.deep_view().take(0)));
        while i < values.len()
            invariant
                i <= values.len(),
                output@ == head + bullets(values.deep_view().take(i as int)),
            decreases values.len() - i,
        {
            output.append("- ");
            output.append(crate::text::trim(values[i].as_str()).as_str());
            output.append("\n");
            i = i + 1;
            let ghost done = values.deep_view().take(i as int);
            assert(done.drop_last() == values.deep_view().take(i - 1));
            assert(done.last() == values@[i - 1]@);
            assert(output@ =~= head + bullets(done));
        }
        assert(values.deep_view().take(i as int) =~= values.deep_view());
        output.append("\n");
        assert(output@ =~= old(output)@ + section(title@, values.deep_view()));
    }
}

/// Writes the specification as a Markdown document.
pub fn specification_markdown(
    requirement_id: EntityId,
    version: i64,
    specification: &RequirementSpecification,
) -> (output: String)
    ensures
        output@ == specification.document(requirement_id, version as int),
{
    let mut output = "# Requirement Specification\n\n- Requirement: `".to_owned();
    output.append(requirement_id.text().as_str());
    output.append("`\n- Version: `");
    output.append(crate::text::integer_text(version).as_str());
    output.append("`\n- Status: draft\n\n## Goal\n\n");
    output.append(crate::text::trim(specification.goal.as_str()).as_str());
    output.append("\n\n## Background\n\n");
    output.append(crate::text::trim(specification.background.as_str()).as_str());
    output.append("\n\n");
    push_section(&mut output, "In Scope", &specification.in_scope);
    push_section(&mut output, "Out of Scope", &specification.out_of_scope);
    push_section(&mut output, "Constraints", &specification.constraints);
    push_section(&mut output, "Assumptions", &specification.assumptions);
    push_section(&mut output, "User Scenarios", &specification.user_scenarios);
    push_section(&mut output, "Acceptance Criteria", &specification.acceptance_criteria);
    push_section(&mut output, "Risks", &specification.risks);
    push_section(&mut output, "Open Questions", &specification.open_questions);
    output
}

/// A list without values says so. One value has one line; and one more value has one more line,
/// behind those of the others: so every value has its line, trimmed, in the order of the values,
/// and there are no other lines.
pub proof fn every_value_has_its_line(title: Seq<char>, values: Seq<Seq<char>>, value: Seq<char>)
    ensures
        section(title, Seq::<Seq<char>>::empty()) == "## "@ + title + "\n\n"@ + "- None.\n\n"@,
        section(title, seq![value]) == "## "@ + title + "\n\n"@ + "- "@ + crate::text::trimmed(
            value,
        ) + "\n"@ + "\n"@,
        values.len() > 0 ==> section(title, values.push(value)) == section(
            title,
            values,
        ).drop_last() + "- "@ + crate::text::trimmed(value) + "\n"@ + "\n"@,
{
    reveal_strlit("\n");
    let one = seq![value];
    assert(one.drop_last() =~= Seq::<Seq<char>>::empty());
    assert(bullets(Seq::<Seq<char>>::empty()) == Seq::<char>::empty());
    assert(one.last() == value);
    assert(section(title, one) =~= "## "@ + title + "\n\n"@ + "- "@ + crate::text::trimmed(value)
        + "\n"@ + "\n"@);
    if values.len() > 0 {
        assert(values.push(value).drop_last() =~= values);
        assert(section(title, values.push(value)) =~= section(title, values).drop_last() + "- "@
            + crate::text::trimmed(value) + "\n"@ + "\n"@);
    }
}

/// The line of each value stands in the section, wherever in the list the value is.
pub proof fn each_line_is_in_the_section(title: Seq<char>, values: Seq<Seq<char>>, i: int)
    requires
        0 <= i < values.len(),
    ensures
        exists|before: Seq<char>, after: Seq<char>|
            section(title, values) == #[trigger] (before + "- "@ + crate::text::trimmed(values[i])
                + "\n"@ + after) && after.len() > 0,
    decreases values.len(),
{
    let earlier = values.drop_last();
    assert(earlier.push(values.last()) =~= values);
    every_value_has_its_line(title, earlier, values.last());
    reveal_strlit("\n");
    if i == values.len() - 1 {
        let before = if earlier.len() == 0 {
            "## "@ + title + "\n\n"@
        } else {
            section(title, earlier).drop_last()
        };
        if earlier.len() == 0 {
            assert(values =~= seq![values[i]]);
        }
        assert(section(title, values) =~= before + "- "@ + crate::text::trimmed(values[i]) + "\n"@
            + "\n"@);
    } else {
        each_line_is_in_the_section(title, earlier, i);
        let (before, after) = choose|before: Seq<char>, after: Seq<char>|
            section(title, earlier) == #[trigger] (before + "- "@ + crate::text::trimmed(earlier[i])
                + "\n"@ + after) && after.len() > 0;
        let rest = after.drop_last() + "- "@ + crate::text::trimmed(values.last()) + "\n"@ + "\n"@;
        assert(section(title, values) =~= before + "- "@ + crate::text::trimmed(values[i]) + "\n"@
            + rest);
    }
}

/// A document names the requirement and the version, and gives the goal, the background and then
/// each list under its own title, in this order and with nothing between them.
pub proof fn a_document_gives_all_of_its_specification(
    specification: RequirementSpecification,
    requirement_id: EntityId,
    version: int,
)
    ensures
        specification.document(requirement_id, version)
            == "# Requirement Specification\n\n- Requirement: `"@ + crate::ids::hyphenated(
            requirement_id.value,
        ) + "`\n- Version: `"@ + crate::text::signed_decimal(version)
            + "`\n- Status: draft\n\n## Goal\n\n"@ + crate::text::trimmed(specification.goal@)
            + "\n\n## Background\n\n"@ + crate::text::trimmed(specification.background@)
            + "\n\n"@ + section("In Scope"@, specification.in_scope.deep_view()) + section(
            "Out of Scope"@,
            specification.out_of_scope.deep_view(),
        ) + section("Constraints"@, specification.constraints.deep_view()) + section(
            "Assumptions"@,
            specification.assumptions.deep_view(),
        ) + section("User Scenarios"@, specification.user_scenarios.deep_view()) + section(
            "Acceptance Criteria"@,
            specification.acceptance_criteria.deep_view(),
        ) + section("Risks"@, specification.risks.deep_view()) + section(
            "Open Questions"@,
            specification.open_questions.deep_view(),
        ),
{
}

/// Where the document of a specification version stands below the project's directory.
pub open spec fn specification_location(requirement_id: EntityId, version: int) -> Seq<Seq<char>> {
    seq![
        ".agentharbor"@,
        "specs"@,
        crate::ids::hyphenated(requirement_id.value),
        "v"@ + crate::text::signed_decimal(version) + ".md"@,
    ]
}

/// The file that a specification version's document is first written to.
pub open spec fn specification_temporary(requirement_id: EntityId, version: int) -> Seq<
    Seq<char>,
> {
    let location = specification_location(requirement_id, version);
    location.drop_last().push(location.last() + ".tmp"@)
}

/// How a document is written: where to, and by which steps.
#[derive(Clone, Debug, PartialEq, Eq)]
pub struct DocumentWrite {
    pub location: StorePath,
    pub steps: Vec<FileStep>,
}

/// The plan writes these bytes to the location of the specification version: the directory is
/// created, the document goes into a file beside its location, and that file takes its place.
pub open spec fn plans_document(
    plan: DocumentWrite,
    requirement_id: EntityId,
    version: int,
    contents: Seq<u8>,
) -> bool {
    let location = specification_location(requirement_id, version);
    let temporary = specification_temporary(requirement_id, version);
    &&& plan.location@ == location
    &&& plan.steps@.len() == 3
    &&& plan.steps@[0].creates_directory(location.drop_last())
    &&& plan.steps@[1].writes(temporary, contents)
    &&& plan.steps@[2].renames(temporary, location)
}

/// Plans how the document of a specification version is written below the project's directory.
pub fn write_specification(requirement_id: EntityId, version: i64, markdown: &str) -> (plan:
    DocumentWrite)
    ensures
        plans_document(
            plan,
            requirement_id,
            version as int,
            vstd::utf8::encode_utf8(markdown@),
        ),
        plan.location.segments@.len() == 4,
        plan.location.segments@[0]@ == ".agentharbor"@,
        plan.location.segments@[1]@ == "specs"@,
        plan.location.segments@[2]@ == crate::ids::hyphenated(requirement_id.value),
        plan.location.segments@[3]@ == "v"@ + crate::text::signed_decimal(version as int) + ".md"@,
        plan.steps@.len() == 3,
        plan.steps@[0] matches FileStep::CreateDirectory { path } && path@
            == plan.location@.drop_last(),
        plan.steps@[1] matches FileStep::WriteFile { path, contents } && path@
            == plan.location@.drop_last().push(plan.location@.last() + ".tmp"@) && contents@
            == vstd::utf8::encode_utf8(markdown@),
        plan.steps@[2] matches FileStep::RenameFile { from, to } && from@
            == plan.location@.drop_last().push(plan.location@.last() + ".tmp"@) && to@
            == plan.location@,
{
    let directory = StorePath::root().join(".agentharbor").join("specs").join(
        requirement_id.text().as_str(),
    );
    let mut name = "v".to_owned();
    name.append(crate::text::integer_text(version).as_str());
    let ghost stem = name@;
    name.append(".md");
    let ghost location = specification_location(requirement_id, version as int);
    proof {
        reveal_strlit(".md");
        reveal_strlit("md.tmp");
        reveal_strlit(".tmp");
        reveal_strlit("v");
        crate::text::signed_decimal_characters(version as int);
        assert(name@ =~= stem + seq!['.'] + seq!['m', 'd']);
        assert(crate::files::has_extension(name@, stem, seq!['m', 'd']));
        assert(stem + seq!['.'] + "md.tmp"@ =~= name@ + ".tmp"@);
    }
    let temporary = directory.join(crate::files::with_extension(name.as_str(), "md.tmp").as_str());
    let target = directory.join(name.as_str());
    assert(target@ =~= location);
    assert(directory@ =~= location.drop_last());
    let location = target.duplicate();
    let mut steps: Vec<FileStep> = Vec::new();
    steps.push(FileStep::CreateDirectory { path: directory });
    steps.push(
        FileStep::WriteFile { path: temporary.duplicate(), contents: markdown.as_bytes_vec() },
    );
    steps.push(FileStep::RenameFile { from: temporary, to: target });
    assert(location@[0] == location.segments@[0]@);
    assert(location@[1] == location.segments@[1]@);
    assert(location@[2] == location.segments@[2]@);
    assert(location@[3] == location.segments@[3]@);
    DocumentWrite { location, steps }
}

proof fn lemma_version_name(version: int)
    ensures
        ({
            let name = "v"@ + crate::text::signed_decimal(version) + ".md"@;
            &&& name.last() == 'd'
            &&& name.subrange(1, name.len() - 3) == crate::text::signed_decimal(version)
        }),
{
    reveal_strlit("v");
    reveal_strlit(".md");
    let name = "v"@ + crate::text::signed_decimal(version) + ".md"@;
    assert(name.subrange(1, name.len() - 3) =~= crate::text::signed_decimal(version));
}

/// Each version of each requirement has a location of its own, and no version's temporary file
/// stands at the location of a version.
pub proof fn specification_versions_have_locations_of_their_own(
    requirement_id: EntityId,
    version: int,
    other_id: EntityId,
    other_version: int,
)
    ensures
        specification_location(requirement_id, version) == specification_location(
            other_id,
            other_version,
        ) ==> requirement_id == other_id && version == other_version,
        specification_temporary(requirement_id, version) != specification_location(
            other_id,
            other_version,
        ),
{
    let here = specification_location(requirement_id, version);
    let there = specification_location(other_id, other_version);
    lemma_version_name(version);
    lemma_version_name(other_version);
    if here == there {
        assert(here[2] == there[2]);
        assert(here[3] == there[3]);
        crate::ids::hyphenated_is_injective(requirement_id.value, other_id.value);
        crate::text::signed_decimal_is_injective(version, other_version);
    }
    reveal_strlit(".tmp");
    let temporary = specification_temporary(requirement_id, version);
    assert(temporary[3].last() == 'p');
    assert(there[3].last() == 'd');
}

/// History is not edited: writing one version of a specification leaves the documents of all
/// other versions as they were, and puts the new document at its own location.
pub proof fn writing_a_version_keeps_the_others(
    plan: DocumentWrite,
    requirement_id: EntityId,
    version: int,
    contents: Seq<u8>,
    other_id: EntityId,
    other_version: int,
    files: Map<Seq<Seq<char>>, Seq<u8>>,
)
    requires
        plans_document(plan, requirement_id, version, contents),
        requirement_id != other_id || version != other_version,
    ensures
        ({
            let after = crate::files::performed(plan.steps@, files);
            let here = specification_location(requirement_id, version);
            let there = specification_location(other_id, other_version);
            &&& after.contains_key(here) && after[here] == contents
            &&& after.contains_key(there) == files.contains_key(there)
            &&& files.contains_key(there) ==> after[there] == files[there]
        }),
{
    let here = specification_location(requirement_id, version);
    let temporary = specification_temporary(requirement_id, version);
    specification_versions_have_locations_of_their_own(
        requirement_id,
        version,
        other_id,
        other_version,
    );
    specification_versions_have_locations_of_their_own(
        requirement_id,
        version,
        requirement_id,
        version,
    );
    assert(crate::files::is_replacement(plan.steps@, temporary, here, contents));
    crate::files::replacement_is_atomic(plan.steps@, temporary, here, contents, files, 3);
    assert(plan.steps@.take(3) =~= plan.steps@);
}

} // verus!
