//! The search for a smaller failing sequence.
//!
//! A generated sequence is kept as it was generated. The search only marks
//! commands as left out and lets elements simplify themselves; it never
//! draws anything anew. Two things follow that a test author should know.
//!
//! Every command was drawn in the state that the commands before it had
//! led the model to. A candidate that leaves some of them out is replayed
//! as it stands: nobody asks the model whether it would still have offered
//! the later commands. A failure of such a candidate counts like any other.
//!
//! What an element does when it is asked to simplify itself, or to take a
//! step back, is the business of the strategy that made it. The contracts
//! here say which elements are asked and what is remembered of the answer,
//! and leave open what the element then stands for.

use crate::element::Element;
use crate::sequence::CommandSequence;
use crate::shrink::{
    count_included, lemma_budget_suffix, lemma_budget_used, lemma_count_bounded,
    lemma_first_included, lemma_select_len, lemma_select_step, select, Shrink, ShrinkState,
    ShrinkStateView, Undo,
};
use crate::traits::StateMachine;
use vstd::prelude::*;

verus! {

/// A generated sequence and the state of the search over it, as a
/// mathematical value.
#[verifier::reject_recursive_types(C)]
pub struct CommandSequenceView<C> {
    /// The elements as they were generated, one for each position.
    pub elements: Seq<Element<C>>,
    /// Which of them are included, and where the search stands.
    pub state: ShrinkStateView,
}

impl<C: std::fmt::Debug> CommandSequenceView<C> {
    /// Length of the generated sequence.
    pub open spec fn len(self) -> nat {
        self.elements.len()
    }

    /// There is a flag for each element, and the bookkeeping is in order.
    pub open spec fn wf(self) -> bool {
        self.state.len() == self.elements.len() && self.state.wf()
    }

    /// The elements of the current candidate: those at the included
    /// positions, in the order in which they were generated.
    pub open spec fn survivors(self) -> Seq<Element<C>> {
        select(self.elements, self.state.included)
    }

    /// Whether `commands` are what the current candidate stands for: one
    /// command for each survivor, in their order, each being what its
    /// element gave when it was asked.
    pub open spec fn yields(self, commands: Seq<C>) -> bool {
        &&& commands.len() == self.survivors().len()
        &&& forall|i: int|
            0 <= i < commands.len() ==> (#[trigger] self.survivors()[i]).stands_for(commands[i])
    }

    /// Whether a call of `simplify` that leads from `self` to `next` asked
    /// the element at `position` to simplify itself: it does so for the
    /// included elements from its cursor on, up to the first that agrees.
    pub open spec fn attempted(self, next: Self, position: int) -> bool {
        &&& self.state.shrink_commands
        &&& self.state.cursor() <= position <= next.state.cursor()
        &&& position < self.len()
        &&& self.state.included[position]
    }

    /// What a call of `simplify` may lead to. Where a command can be left
    /// out, that is what happens. Otherwise the included elements from the
    /// cursor on are asked in turn, and how each answers is up to it: the
    /// first that agrees is remembered and the call succeeds; if none does,
    /// the cursor ends behind the last and the search is exhausted. Each
    /// element that was asked is what its answer left it as, elements that
    /// were not asked are what they were, and no flag changes.
    pub open spec fn simplifies_to(self, next: Self, simplified: bool) -> bool {
        if self.state.can_delete() {
            &&& simplified
            &&& next.elements == self.elements
            &&& next.state == self.state.after_delete()
        } else {
            &&& next.elements.len() == self.elements.len()
            &&& forall|j: int|
                0 <= j < self.len() && !self.attempted(next, j) ==> next.elements[j]
                    == self.elements[j]
            &&& forall|j: int|
                0 <= j < self.len() && self.attempted(next, j) ==> (#[trigger] self.elements[j]).simplified_to(
                    next.elements[j],
                    simplified && j == next.state.cursor(),
                )
            &&& next.state.included == self.state.included
            &&& next.state.shrink_commands == self.state.shrink_commands
            &&& next.state.shrink is ShrinkCommand
            &&& self.state.cursor() <= next.state.cursor() <= self.len()
            &&& if simplified {
                &&& self.state.shrink_commands
                &&& next.state.cursor() < self.len()
                &&& self.state.included[next.state.cursor() as int]
                &&& next.state.prev_shrink == Some(next.state.shrink)
            } else {
                &&& next.state.prev_shrink == self.state.prev_shrink
                &&& next.state.cursor() == if self.state.shrink_commands {
                    self.len()
                } else {
                    self.state.cursor()
                }
            }
        }
    }

    /// What a call of `complicate` may lead to. Without a remembered step
    /// nothing happens. A command that was left out is included again. A
    /// step of an element is handed to that element: whether it takes it
    /// back is up to it, and a step that it does not take back is forgotten.
    pub open spec fn complicates_to(self, next: Self, complicated: bool) -> bool {
        match self.state.undo() {
            Undo::Nothing => !complicated && next == self,
            Undo::Reincluded(_) => {
                &&& complicated
                &&& next.elements == self.elements
                &&& next.state == self.state.after_undo()
            },
            Undo::Element(k) => {
                &&& next.elements.len() == self.elements.len()
                &&& forall|j: int|
                    0 <= j < self.len() && j != k ==> next.elements[j] == self.elements[j]
                &&& self.elements[k as int].complicated_to(next.elements[k as int], complicated)
                &&& next.state == self.state.after_element_undo(complicated)
            },
        }
    }
}

/// A generated sequence together with the search for a smaller one that
/// still fails. The elements stay where they were generated: leaving a
/// command out only clears its flag.
#[verifier::reject_recursive_types(SM)]
pub struct CommandSequenceValueTree<SM> where SM: StateMachine {
    elements: Vec<Element<SM::Command>>,
    state: ShrinkState,
    state_machine: SM,
}

impl<SM> View for CommandSequenceValueTree<SM> where SM: StateMachine {
    type V = CommandSequenceView<SM::Command>;

    closed spec fn view(&self) -> CommandSequenceView<SM::Command> {
        CommandSequenceView { elements: self.elements@, state: self.state@ }
    }
}

impl<SM> CommandSequenceValueTree<SM> where SM: StateMachine {
    /// The model that each candidate is handed a copy of.
    pub closed spec fn model(&self) -> SM {
        self.state_machine
    }

    /// The search over freshly generated `elements`: all of them are
    /// included, and the first step is to leave out the first.
    pub(crate) fn new(
        elements: Vec<Element<SM::Command>>,
        shrink_commands: bool,
        state_machine: SM,
    ) -> (tree: Self)
        ensures
            tree@.elements == elements@,
            tree@.state == ShrinkStateView::initial(elements@.len(), shrink_commands),
            tree@.wf(),
            tree.model() == state_machine,
    {
        let state = ShrinkState::new(elements.len(), shrink_commands);
        CommandSequenceValueTree { elements, state, state_machine }
    }

    /// Length of the generated sequence.
    pub fn len(&self) -> (n: usize)
        ensures
            n == self@.len(),
    {
        self.elements.len()
    }

    /// Length of the current candidate.
    pub fn num_included(&self) -> (n: usize)
        ensures
            n == self@.state.num_included(),
    {
        self.state.num_included()
    }

    /// Whether the command at `position` is part of the current candidate;
    /// `false` for a position that the sequence does not have.
    pub fn is_included(&self, position: usize) -> (flag: bool)
        requires
            self@.wf(),
        ensures
            flag == (position < self@.len() && self@.state.included[position as int]),
    {
        position < self.state.len() && self.state.is_included(position)
    }

    /// The step that the search takes next.
    pub fn shrink(&self) -> (step: Shrink)
        ensures
            step == self@.state.shrink,
    {
        self.state.shrink()
    }

    /// The step that was accepted last and can still be taken back.
    pub fn prev_shrink(&self) -> (step: Option<Shrink>)
        ensures
            step == self@.state.prev_shrink,
    {
        self.state.prev_shrink()
    }

    /// The current candidate: what the included elements stand for at this
    /// moment, in the order in which they were generated, with a copy of
    /// the model.
    pub fn current(&self) -> (sequence: CommandSequence<SM>) where SM: Clone
        requires
            self@.wf(),
        ensures
            self@.yields(sequence@),
            sequence@.len() == self@.survivors().len(),
            sequence@.len() == self@.state.num_included(),
            sequence@.len() <= self@.len(),
            self@.len() > 0 ==> sequence@.len() >= 1,
            cloned(self.model(), sequence.model()),
    {
        let mut commands: Vec<SM::Command> = Vec::new();
        let mut position: usize = 0;
        while position < self.elements.len()
            invariant
                self@.wf(),
                position <= self.elements@.len(),
                commands@.len() == count_included(self.state@.included.take(position as int)),
                commands@.len() == select(
                    self.elements@.take(position as int),
                    self.state@.included.take(position as int),
                ).len(),
                forall|i: int|
                    0 <= i < commands@.len() ==> (#[trigger] select(
                        self.elements@.take(position as int),
                        self.state@.included.take(position as int),
                    )[i]).stands_for(commands@[i]),
            decreases self.elements@.len() - position,
        {
            proof {
                assert(self.state@.included.take(position + 1).drop_last()
                    =~= self.state@.included.take(position as int));
                lemma_select_step(self.elements@, self.state@.included, position as int);
            }
            if self.state.is_included(position) {
                commands.push(self.elements[position].command());
            }
            position += 1;
        }
        proof {
            assert(self.state@.included.take(position as int) =~= self.state@.included);
            assert(self.elements@.take(position as int) =~= self.elements@);
            lemma_count_bounded(self.state@.included);
            lemma_select_len(self.elements@, self.state@.included);
        }
        CommandSequence::new(commands, self.state_machine.clone())
    }

    /// Attempts one step towards a smaller candidate and tells whether a
    /// new candidate stands. First the commands are left out one by one;
    /// once none can be, the included elements are asked to simplify
    /// themselves, if the search was told to. `false` means that the search
    /// is exhausted, and every later call gives `false` again.
    pub fn simplify(&mut self) -> (simplified: bool)
        requires
            old(self)@.wf(),
        ensures
            final(self)@.wf(),
            final(self).model() == old(self).model(),
            old(self)@.simplifies_to(final(self)@, simplified),
    {
        if self.state.delete_next() {
            return true;
        }
        loop
            invariant
                self@.wf(),
                self.model() == old(self).model(),
                !old(self)@.state.can_delete(),
                self@.elements.len() == old(self)@.elements.len(),
                self@.state.included == old(self)@.state.included,
                self@.state.shrink_commands == old(self)@.state.shrink_commands,
                self@.state.prev_shrink == old(self)@.state.prev_shrink,
                self@.state.shrink is ShrinkCommand,
                old(self)@.state.cursor() <= self@.state.cursor() <= self@.len(),
                !self@.state.shrink_commands ==> self@.state.cursor() == old(self)@.state.cursor(),
                forall|j: int|
                    0 <= j < self@.len() && !(self@.state.shrink_commands
                        && old(self)@.state.cursor() <= j < self@.state.cursor()
                        && self@.state.included[j]) ==> self@.elements[j] == old(self)@.elements[j],
                forall|j: int|
                    0 <= j < self@.len() && self@.state.shrink_commands && old(
                        self,
                    )@.state.cursor() <= j < self@.state.cursor() && self@.state.included[j]
                        ==> (#[trigger] old(self)@.elements[j]).simplified_to(
                        self@.elements[j],
                        false,
                    ),
            decreases self@.len() - self@.state.cursor(),
        {
            proof {
                lemma_first_included(self@.state.included, self@.state.cursor());
            }
            match self.state.next_candidate() {
                None => {
                    return false;
                },
                Some(position) => {
                    let changed = self.elements[position].ask_to_simplify();
                    if self.state.settle(changed) {
                        return true;
                    }
                },
            }
        }
    }

    /// Takes back the step that `simplify` accepted last and tells whether
    /// anything was taken back. A command that was left out is included
    /// again; a step of an element is handed to that element.
    pub fn complicate(&mut self) -> (complicated: bool)
        requires
            old(self)@.wf(),
        ensures
            final(self)@.wf(),
            final(self).model() == old(self).model(),
            old(self)@.complicates_to(final(self)@, complicated),
    {
        match self.state.undo() {
            Undo::Nothing => false,
            Undo::Reincluded(_) => true,
            Undo::Element(position) => {
                let changed = self.elements[position].ask_to_complicate();
                self.state.settle_undo(changed)
            },
        }
    }
}

/// A step of `simplify` that is taken back at once by `complicate` leaves
/// the candidate that stood before. For a command that was left out this
/// holds as it stands, and `complicate` succeeds. For a step of an element
/// it holds where the elements that were asked are, after the two calls,
/// what they were before them: whether an element restores itself is up to
/// the element.
pub proof fn lemma_simplify_then_complicate<C: std::fmt::Debug>(
    before: CommandSequenceView<C>,
    between: CommandSequenceView<C>,
    after: CommandSequenceView<C>,
    complicated: bool,
)
    requires
        before.wf(),
        before.simplifies_to(between, true),
        between.complicates_to(after, complicated),
        before.state.can_delete() || forall|j: int|
            0 <= j < before.len() && before.attempted(between, j) ==> after.elements[j]
                == before.elements[j],
    ensures
        before.state.can_delete() ==> complicated,
        after.elements == before.elements,
        after.state.included == before.state.included,
        after.survivors() == before.survivors(),
{
    if before.state.can_delete() {
        assert(after.state.included =~= before.state.included);
    } else {
        assert(after.elements =~= before.elements);
    }
}

/// Whether a successful call of `simplify` that leads from `before` to
/// `after` stays within what the elements can do. `budgets_before[k]` and
/// `budgets_after[k]` bound how often the element at position `k` can
/// simplify itself before and after the call: no bound grows, and the bound
/// of the element that agreed to simplify itself becomes smaller.
pub open spec fn step_within_budgets<C: std::fmt::Debug>(
    before: CommandSequenceView<C>,
    after: CommandSequenceView<C>,
    budgets_before: Seq<nat>,
    budgets_after: Seq<nat>,
) -> bool {
    &&& before.simplifies_to(after, true)
    &&& budgets_before.len() == before.len()
    &&& budgets_after.len() == before.len()
    &&& forall|j: int| 0 <= j < before.len() ==> budgets_after[j] <= budgets_before[j]
    &&& !before.state.can_delete() ==> budgets_after[after.state.cursor() as int]
        < budgets_before[after.state.cursor() as int]
}

/// Whether `states` is a run of successful calls of `simplify`, each
/// leading from one state to the next within the elements' budgets.
pub open spec fn is_successful_run<C: std::fmt::Debug>(
    states: Seq<CommandSequenceView<C>>,
    budgets: Seq<Seq<nat>>,
) -> bool {
    &&& states.len() == budgets.len()
    &&& forall|i: int| 0 <= i < states.len() ==> (#[trigger] states[i]).wf()
    &&& forall|i: int|
        0 <= i < states.len() - 1 ==> step_within_budgets(
            #[trigger] states[i],
            states[i + 1],
            budgets[i],
            budgets[i + 1],
        )
}

/// Every successful step of `simplify` uses up some of what is left. Let
/// `budgets[k]` bound how often the element at position `k` can still
/// simplify itself. If no element's bound grows over a successful call, and
/// the bound of the element that agreed to simplify itself becomes smaller,
/// then the search's potential becomes smaller. A search over `n` commands
/// starts with the potential `n` plus the sum of the bounds, so no more
/// calls than that can succeed.
pub proof fn lemma_simplify_uses_potential<C: std::fmt::Debug>(
    before: CommandSequenceView<C>,
    after: CommandSequenceView<C>,
    budgets_before: Seq<nat>,
    budgets_after: Seq<nat>,
)
    requires
        before.wf(),
        step_within_budgets(before, after, budgets_before, budgets_after),
    ensures
        after.state.potential(budgets_after) < before.state.potential(budgets_before),
{
    if before.state.can_delete() {
        crate::shrink::lemma_budget_monotone(budgets_before, budgets_after, 0);
    } else {
        let from = before.state.cursor();
        let used = after.state.cursor();
        lemma_budget_used(budgets_before, budgets_after, from, used);
        lemma_budget_suffix(budgets_after, from, used);
        lemma_budget_suffix(budgets_before, 0, from);
    }
}

/// The search ends after a bounded number of steps: a run of successful
/// calls of `simplify` is no longer than the potential that the search had
/// at its start. For a search that starts on a freshly generated sequence
/// that is the length of the sequence plus the sum of the elements'
/// budgets; the call after the last successful one returns `false`.
pub proof fn lemma_successful_steps_are_bounded<C: std::fmt::Debug>(
    states: Seq<CommandSequenceView<C>>,
    budgets: Seq<Seq<nat>>,
)
    requires
        states.len() >= 1,
        is_successful_run(states, budgets),
    ensures
        states.len() - 1 + states.last().state.potential(budgets.last())
            <= states[0].state.potential(budgets[0]),
        states[0].state == ShrinkStateView::initial(states[0].len(), states[0].state.shrink_commands)
            ==> states.len() - 1 <= states[0].len() + crate::shrink::budget_from(budgets[0], 0),
    decreases states.len(),
{
    if states.len() > 1 {
        let shorter = states.drop_last();
        let shorter_budgets = budgets.drop_last();
        assert forall|i: int| 0 <= i < shorter.len() implies (#[trigger] shorter[i]).wf() by {
            assert(states[i].wf());
        }
        assert forall|i: int| 0 <= i < shorter.len() - 1 implies step_within_budgets(
            #[trigger] shorter[i],
            shorter[i + 1],
            shorter_budgets[i],
            shorter_budgets[i + 1],
        ) by {
            assert(step_within_budgets(states[i], states[i + 1], budgets[i], budgets[i + 1]));
        }
        lemma_successful_steps_are_bounded(shorter, shorter_budgets);
        let last = states.len() - 2;
        assert(states[last].wf());
        assert(step_within_budgets(
            states[last],
            states[last + 1],
            budgets[last],
            budgets[last + 1],
        ));
        lemma_simplify_uses_potential(
            states[last],
            states[last + 1],
            budgets[last],
            budgets[last + 1],
        );
    }
}

/// Taking a step back does not give the search new potential.
pub proof fn lemma_complicate_keeps_potential<C: std::fmt::Debug>(
    before: CommandSequenceView<C>,
    after: CommandSequenceView<C>,
    complicated: bool,
    budgets: Seq<nat>,
)
    requires
        before.wf(),
        before.complicates_to(after, complicated),
    ensures
        after.state.potential(budgets) == before.state.potential(budgets),
{
}

/// Taking a step back makes the candidate longer by one command exactly
/// when the step was a deletion, and leaves its length alone otherwise. No
/// command is ever left out by it.
pub proof fn lemma_complicate_lengthens<C: std::fmt::Debug>(
    before: CommandSequenceView<C>,
    after: CommandSequenceView<C>,
    complicated: bool,
)
    requires
        before.wf(),
        before.complicates_to(after, complicated),
    ensures
        after.state.num_included() == before.state.num_included() + if before.state.undo()
            is Reincluded {
            1nat
        } else {
            0nat
        },
        forall|j: int|
            0 <= j < before.len() && before.state.included[j] ==> after.state.included[j],
{
    if let Undo::Reincluded(k) = before.state.undo() {
        crate::shrink::lemma_count_update(before.state.included, k as int, true);
    }
}

/// Once `simplify` has failed it fails for good: a failed call leaves the
/// search exhausted, and a call on an exhausted search fails, asks no
/// element and leaves the candidate as it is.
pub proof fn lemma_exhaustion_is_final<C: std::fmt::Debug>(
    before: CommandSequenceView<C>,
    after: CommandSequenceView<C>,
    simplified: bool,
)
    requires
        before.wf(),
        before.simplifies_to(after, simplified),
    ensures
        !simplified ==> after.state.exhausted(),
        before.state.exhausted() ==> !simplified && after.elements == before.elements
            && after.survivors() == before.survivors() && after.state.exhausted(),
{
    lemma_first_included(before.state.included, before.state.cursor());
    lemma_first_included(after.state.included, after.state.cursor());
    if before.state.exhausted() {
        assert(after.elements =~= before.elements);
    }
}

/// The candidate never outgrows the generated sequence, and a sequence
/// that had a command keeps at least one.
pub proof fn lemma_candidate_length<C: std::fmt::Debug>(tree: CommandSequenceView<C>)
    requires
        tree.wf(),
    ensures
        tree.survivors().len() == tree.state.num_included(),
        tree.survivors().len() <= tree.len(),
        tree.len() > 0 ==> tree.survivors().len() >= 1,
{
    lemma_select_len(tree.elements, tree.state.included);
    lemma_count_bounded(tree.state.included);
}

} // verus!
