//! Token budgets: when an agent's context has to be checkpointed.

use vstd::prelude::*;

use crate::error::OrchestratorError;

verus! {

/// How the context window of a model is divided.
#[derive(Clone, Debug, PartialEq, Eq)]
pub struct ModelBudget {
    pub context_window: u64,
    pub reserved_output: u64,
    pub safety_margin: u64,
    pub soft_threshold_percent: u8,
}

/// How much of a model's budget is used.
#[derive(Clone, Debug, PartialEq, Eq)]
pub struct BudgetAssessment {
    pub usable_tokens: u64,
    pub soft_limit: u64,
    pub consumed_tokens: u64,
    pub checkpoint_required: bool,
}

impl ModelBudget {
    /// What the reserves leave of the context window.
    pub open spec fn usable(self) -> int {
        self.context_window - self.reserved_output - self.safety_margin
    }

    /// The share of the usable tokens from which on a checkpoint is required. The product is
    /// cut off at the largest 64-bit number before it is divided.
    pub open spec fn soft_limit(self) -> int {
        let product = self.usable() * self.soft_threshold_percent;
        (if product > u64::MAX {
            u64::MAX as int
        } else {
            product
        }) / 100
    }

    /// The threshold is a percentage of at least one, and the reserves fit into the window.
    pub open spec fn is_valid(self) -> bool {
        1 <= self.soft_threshold_percent <= 100 && self.usable() >= 0
    }

    /// Why a budget that is not valid is refused.
    pub open spec fn refusal(self) -> Seq<char> {
        if !(1 <= self.soft_threshold_percent <= 100) {
            "soft threshold must be 1..=100"@
        } else if self.reserved_output + self.safety_margin > u64::MAX {
            "token budget overflow"@
        } else {
            "reserves exceed context window"@
        }
    }

    /// The assessment of a valid budget.
    pub open spec fn assessment(self, consumed: u64) -> BudgetAssessment {
        BudgetAssessment {
            usable_tokens: self.usable() as u64,
            soft_limit: self.soft_limit() as u64,
            consumed_tokens: consumed,
            checkpoint_required: consumed >= self.soft_limit(),
        }
    }

    /// Assesses the budget after `consumed_tokens` tokens.
    pub fn assess(&self, consumed_tokens: u64) -> (r: Result<BudgetAssessment, OrchestratorError>)
        ensures
            r is Ok <==> self.is_valid(),
            r matches Ok(a) ==> a == self.assessment(consumed_tokens) && a.usable_tokens
                == self.usable() && a.soft_limit == self.soft_limit(),
            r matches Err(e) ==> e.is_invalid_input(self.refusal()),
            r is Ok <==> 1 <= self.soft_threshold_percent <= 100 && self.reserved_output
                + self.safety_margin <= self.context_window,
            r matches Ok(a) ==> {
                &&& a.usable_tokens + self.reserved_output + self.safety_margin
                    == self.context_window
                &&& a.usable_tokens * self.soft_threshold_percent <= u64::MAX ==> 100 * a.soft_limit
                    <= a.usable_tokens * self.soft_threshold_percent < 100 * (a.soft_limit + 1)
                &&& a.usable_tokens * self.soft_threshold_percent > u64::MAX ==> 100 * a.soft_limit
                    <= u64::MAX < 100 * (a.soft_limit + 1)
                &&& a.consumed_tokens == consumed_tokens
                &&& a.checkpoint_required <==> consumed_tokens >= a.soft_limit
            },
            r matches Err(e) ==> {
                &&& e is InvalidInput
                &&& !(1 <= self.soft_threshold_percent <= 100) ==> e->InvalidInput_0@
                    == "soft threshold must be 1..=100"@
                &&& 1 <= self.soft_threshold_percent <= 100 && self.reserved_output
                    + self.safety_margin > u64::MAX ==> e->InvalidInput_0@
                    == "token budget overflow"@
                &&& 1 <= self.soft_threshold_percent <= 100 && self.context_window
                    < self.reserved_output + self.safety_margin <= u64::MAX
                    ==> e->InvalidInput_0@ == "reserves exceed context window"@
            },
    {
        if self.soft_threshold_percent < 1 || self.soft_threshold_percent > 100 {
            return Err(OrchestratorError::invalid_input("soft threshold must be 1..=100"));
        }
        let reserved = match self.reserved_output.checked_add(self.safety_margin) {
            Some(reserved) => reserved,
            None => {
                return Err(OrchestratorError::invalid_input("token budget overflow"));
            },
        };
        let usable_tokens = match self.context_window.checked_sub(reserved) {
            Some(usable) => usable,
            None => {
                return Err(OrchestratorError::invalid_input("reserves exceed context window"));
            },
        };
        let percent = self.soft_threshold_percent as u128;
        assert(0 <= usable_tokens * percent <= 100 * 0xffff_ffff_ffff_ffff) by (nonlinear_arith)
            requires
                usable_tokens <= 0xffff_ffff_ffff_ffff,
                percent <= 100,
        ;
        let product: u128 = usable_tokens as u128 * percent;
        let soft_limit: u64 = if product > u64::MAX as u128 {
            u64::MAX / 100
        } else {
            product as u64 / 100
        };
        Ok(
            BudgetAssessment {
                usable_tokens,
                soft_limit,
                consumed_tokens,
                checkpoint_required: consumed_tokens >= soft_limit,
            },
        )
    }
}

/// An assessment adds up: the usable tokens and the reserves are the context window; where the
/// product is a 64-bit number, a hundred times the soft limit is the usable tokens times the
/// percentage, but for less than a hundred, whatever the percentage from 1 to 100, so that at 100
/// percent the soft limit is all usable tokens; and a checkpoint is required from the soft limit
/// on.
pub proof fn an_assessment_adds_up(budget: ModelBudget, consumed: u64)
    requires
        1 <= budget.soft_threshold_percent <= 100,
        budget.reserved_output + budget.safety_margin <= budget.context_window,
    ensures
        ({
            let a = budget.assessment(consumed);
            let product = a.usable_tokens * budget.soft_threshold_percent;
            &&& a.usable_tokens + budget.reserved_output + budget.safety_margin
                == budget.context_window
            &&& product <= u64::MAX ==> 100 * a.soft_limit <= product < 100 * (a.soft_limit + 1)
            &&& product > u64::MAX ==> 100 * a.soft_limit <= u64::MAX < 100 * (a.soft_limit + 1)
            &&& product <= u64::MAX && budget.soft_threshold_percent == 100 ==> a.soft_limit
                == a.usable_tokens
            &&& a.consumed_tokens == consumed
            &&& a.checkpoint_required <==> consumed >= a.soft_limit
        }),
        budget.is_valid(),
{
    soft_limit_is_within_the_usable_tokens(budget);
    let a = budget.assessment(consumed);
    assert(a.usable_tokens == budget.usable());
    assert(a.soft_limit == budget.soft_limit());
    let usable = budget.usable();
    if budget.soft_threshold_percent == 100 {
        assert(usable * budget.soft_threshold_percent == usable * 100);
    }
}

/// A budget is refused exactly where its threshold is no percentage from 1 to 100 or its reserves
/// exceed its window, and the first of these faults is the one that is named.
pub proof fn a_refusal_names_the_first_fault(budget: ModelBudget)
    ensures
        budget.is_valid() <==> 1 <= budget.soft_threshold_percent <= 100 && budget.reserved_output
            + budget.safety_margin <= budget.context_window,
        !(1 <= budget.soft_threshold_percent <= 100) ==> budget.refusal()
            == "soft threshold must be 1..=100"@,
        1 <= budget.soft_threshold_percent <= 100 && budget.reserved_output + budget.safety_margin
            > u64::MAX ==> budget.refusal() == "token budget overflow"@,
        1 <= budget.soft_threshold_percent <= 100 && budget.context_window < budget.reserved_output
            + budget.safety_margin <= u64::MAX ==> budget.refusal()
            == "reserves exceed context window"@,
{
}

/// A higher percentage never lowers the soft limit.
pub proof fn soft_limit_grows_with_the_percentage(lower: ModelBudget, higher: ModelBudget)
    requires
        lower.is_valid(),
        higher.is_valid(),
        lower.context_window == higher.context_window,
        lower.reserved_output == higher.reserved_output,
        lower.safety_margin == higher.safety_margin,
        lower.soft_threshold_percent <= higher.soft_threshold_percent,
    ensures
        lower.soft_limit() <= higher.soft_limit(),
{
    let usable = lower.usable();
    let p = lower.soft_threshold_percent as int;
    let q = higher.soft_threshold_percent as int;
    assert(usable * p <= usable * q) by (nonlinear_arith)
        requires
            usable >= 0,
            p <= q,
    ;
}

/// The soft limit never exceeds the usable tokens, so a checkpoint is required before they are
/// used up.
pub proof fn soft_limit_is_within_the_usable_tokens(budget: ModelBudget)
    requires
        budget.is_valid(),
    ensures
        0 <= budget.soft_limit() <= budget.usable() <= u64::MAX,
        forall|consumed: u64|
            consumed >= budget.usable() ==> (#[trigger] budget.assessment(
                consumed,
            )).checkpoint_required,
{
    let usable = budget.usable();
    let percent = budget.soft_threshold_percent as int;
    assert(0 <= usable * percent <= usable * 100) by (nonlinear_arith)
        requires
            usable >= 0,
            1 <= percent <= 100,
    ;
}

/// Once a checkpoint is required, using more tokens does not lift the requirement.
pub proof fn checkpoint_requirement_is_monotone(budget: ModelBudget, less: u64, more: u64)
    requires
        less <= more,
        budget.assessment(less).checkpoint_required,
    ensures
        budget.assessment(more).checkpoint_required,
{
}

/// A model name with its budget.
struct RegisteredModel {
    name: String,
    budget: ModelBudget,
}

/// Knows the budgets of the registered models.
pub struct ContextBudgeter {
    models: Vec<RegisteredModel>,
}

/// The entry at `i` is the one of this name.
spec fn names(models: Seq<RegisteredModel>, name: Seq<char>, i: int) -> bool {
    0 <= i < models.len() && models[i].name@ == name
}

spec fn budgets_of(models: Seq<RegisteredModel>) -> Map<Seq<char>, ModelBudget> {
    Map::new(
        |name: Seq<char>| exists|i: int| names(models, name, i),
        |name: Seq<char>| models[choose|i: int| names(models, name, i)].budget,
    )
}

/// No two entries have the same name, and every budget is valid.
spec fn is_registry(models: Seq<RegisteredModel>) -> bool {
    &&& forall|i: int, j: int|
        0 <= i < j < models.len() ==> (#[trigger] models[i]).name@ != (#[trigger] models[j]).name@
    &&& forall|i: int| 0 <= i < models.len() ==> (#[trigger] models[i]).budget.is_valid()
}

proof fn lemma_entry(models: Seq<RegisteredModel>, i: int)
    requires
        is_registry(models),
        0 <= i < models.len(),
    ensures
        budgets_of(models).contains_key(models[i].name@),
        budgets_of(models)[models[i].name@] == models[i].budget,
{
    let name = models[i].name@;
    assert(names(models, name, i));
    let j = choose|j: int| names(models, name, j);
    if i < j {
        assert(models[i].name@ != models[j].name@);
    } else if j < i {
        assert(models[j].name@ != models[i].name@);
    }
}

impl View for ContextBudgeter {
    type V = Map<Seq<char>, ModelBudget>;

    /// The budgets by the names of their models.
    closed spec fn view(&self) -> Map<Seq<char>, ModelBudget> {
        budgets_of(self.models@)
    }
}

impl Default for ContextBudgeter {
    fn default() -> (r: Self)
        ensures
            r@ == Map::<Seq<char>, ModelBudget>::empty(),
    {
        let r = ContextBudgeter { models: Vec::new() };
        assert(r@ =~= Map::<Seq<char>, ModelBudget>::empty());
        r
    }
}

impl ContextBudgeter {
    #[verifier::type_invariant]
    spec fn well_formed(self) -> bool {
        is_registry(self.models@)
    }

    /// The place of the model in the registry.
    fn position(&self, model: &str) -> (r: Option<usize>)
        ensures
            r is None <==> !self@.contains_key(model@),
            r matches Some(i) ==> names(self.models@, model@, i as int) && self@[model@]
                == self.models@[i as int].budget && self.models@[i as int].budget.is_valid(),
    {
        proof {
            use_type_invariant(self);
        }
        let mut i: usize = 0;
        while i < self.models.len()
            invariant
                i <= self.models.len(),
                is_registry(self.models@),
                forall|j: int| 0 <= j < i ==> !names(self.models@, model@, j),
            decreases self.models.len() - i,
        {
            if crate::text::same_text(self.models[i].name.as_str(), model) {
                proof {
                    lemma_entry(self.models@, i as int);
                }
                return Some(i);
            }
            i = i + 1;
        }
        None
    }

    /// Registers the budget of a model, in place of one that was registered for it. A budget
    /// that is not valid is refused, and nothing changes.
    pub fn register(&mut self, model: String, budget: ModelBudget) -> (r: Result<
        (),
        OrchestratorError,
    >)
        ensures
            r is Ok <==> budget.is_valid(),
            r is Ok ==> final(self)@ == old(self)@.insert(model@, budget),
            r matches Err(e) ==> e.is_invalid_input(budget.refusal()) && final(self)@
                == old(self)@,
            r is Ok <==> 1 <= budget.soft_threshold_percent <= 100 && budget.reserved_output
                + budget.safety_margin <= budget.context_window,
    {
        match budget.assess(0) {
            Ok(_) => {},
            Err(e) => {
                return Err(e);
            },
        }
        let place = self.position(model.as_str());
        proof {
            use_type_invariant(&*self);
        }
        let mut models: Vec<RegisteredModel> = Vec::new();
        std::mem::swap(&mut models, &mut self.models);
        let ghost before = models@;
        let ghost name = model@;
        let entry = RegisteredModel { name: model, budget };
        let ghost at: int;
        match place {
            Some(i) => {
                proof {
                    at = i as int;
                }
                models.set(i, entry);
            },
            None => {
                proof {
                    at = before.len() as int;
                    assert forall|j: int| 0 <= j < before.len() implies (
                    #[trigger] before[j]).name@ != name by {
                        if before[j].name@ == name {
                            assert(names(before, name, j));
                        }
                    }
                }
                models.push(entry);
            },
        }
        proof {
            assert(is_registry(models@)) by {
                assert forall|i: int, j: int| 0 <= i < j < models.len() implies (
                #[trigger] models@[i]).name@ != (#[trigger] models@[j]).name@ by {
                    if i < before.len() && j < before.len() {
                        assert(before[i].name@ != before[j].name@);
                    }
                }
            }
            assert(budgets_of(models@) =~= budgets_of(before).insert(name, budget)) by {
                lemma_entry(models@, at);
                let now = budgets_of(models@);
                let then = budgets_of(before);
                assert forall|other: Seq<char>| other != name implies {
                    &&& #[trigger] now.dom().contains(other) == then.dom().contains(other)
                    &&& then.dom().contains(other) ==> now[other] == then[other]
                } by {
                    if then.dom().contains(other) {
                        let j = choose|j: int| names(before, other, j);
                        assert(models@[j] == before[j]);
                        lemma_entry(before, j);
                        lemma_entry(models@, j);
                    }
                    if now.dom().contains(other) {
                        let j = choose|j: int| names(models@, other, j);
                        assert(j != at);
                        assert(names(before, other, j));
                    }
                }
                assert(now.dom() =~= then.insert(name, budget).dom());
            }
        }
        self.models = models;
        Ok(())
    }

    /// Assesses the budget of a registered model after `used` tokens.
    pub fn assess(&self, model: &str, used: u64) -> (r: Result<BudgetAssessment, OrchestratorError>)
        ensures
            r is Ok <==> self@.contains_key(model@),
            r matches Ok(a) ==> a == self@[model@].assessment(used) && self@[model@].is_valid(),
            r matches Ok(a) ==> {
                let budget = self@[model@];
                &&& a.usable_tokens + budget.reserved_output + budget.safety_margin
                    == budget.context_window
                &&& a.consumed_tokens == used
                &&& a.usable_tokens * budget.soft_threshold_percent <= u64::MAX ==> 100
                    * a.soft_limit <= a.usable_tokens * budget.soft_threshold_percent < 100 * (
                a.soft_limit + 1)
                &&& a.usable_tokens * budget.soft_threshold_percent > u64::MAX ==> 100
                    * a.soft_limit <= u64::MAX < 100 * (a.soft_limit + 1)
                &&& a.checkpoint_required <==> used >= a.soft_limit
            },
            r matches Err(e) ==> e is InvalidInput && e->InvalidInput_0@ == "unknown model: "@
                + model@,
            r matches Err(e) ==> e.is_invalid_input("unknown model: "@ + model@),
    {
        match self.position(model) {
            Some(i) => self.models[i].budget.assess(used),
            None => Err(
                OrchestratorError::InvalidInput("unknown model: ".to_owned().concat(model)),
            ),
        }
    }
}

} // verus!
