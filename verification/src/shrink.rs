//! Bookkeeping of the search for a smaller failing sequence.
//!
//! The search first tries to leave out whole commands, one position after the
//! other, and only then lets the surviving elements simplify themselves. What
//! is kept here is the part of the search that holds no command at all: which
//! positions are still included, where the search stands, and which step was
//! accepted last, so that it can be taken back.

use vstd::prelude::*;

verus! {

/// A step of the search, named by the position it concerns.
#[derive(Clone, Copy, Debug, PartialEq, Eq, Structural)]
pub enum Shrink {
    /// Leave out the command at this position.
    DeleteCommand(usize),
    /// Let the element at this position simplify itself.
    ShrinkCommand(usize),
}

/// What taking back the last accepted step amounts to.
#[derive(Clone, Copy, Debug, PartialEq, Eq, Structural)]
pub enum Undo {
    /// There is no step to take back.
    Nothing,
    /// The command at this position was put back into the sequence.
    Reincluded(usize),
    /// The element at this position has to take back its own last step.
    Element(usize),
}

/// Number of positions that are marked as included.
pub open spec fn count_included(flags: Seq<bool>) -> nat
    decreases flags.len(),
{
    if flags.len() == 0 {
        0
    } else {
        count_included(flags.drop_last()) + if flags.last() {
            1nat
        } else {
            0nat
        }
    }
}

/// First included position at or after `from`; the length if there is none.
pub open spec fn first_included(flags: Seq<bool>, from: nat) -> nat
    decreases flags.len() - from,
{
    if from >= flags.len() {
        flags.len()
    } else if flags[from as int] {
        from
    } else {
        first_included(flags, from + 1)
    }
}

/// Sum of the entries of `budgets` from position `from` on.
pub open spec fn budget_from(budgets: Seq<nat>, from: nat) -> nat
    decreases budgets.len() - from,
{
    if from >= budgets.len() {
        0
    } else {
        budgets[from as int] + budget_from(budgets, from + 1)
    }
}

/// The state of the search as a mathematical value.
pub struct ShrinkStateView {
    /// For each position of the generated sequence, whether its command is
    /// part of the current candidate. Positions are never renumbered.
    pub included: Seq<bool>,
    /// The step that the next call of `simplify` starts with.
    pub shrink: Shrink,
    /// The step accepted last, as long as it can still be taken back.
    pub prev_shrink: Option<Shrink>,
    /// Whether elements are simplified once no command can be left out.
    pub shrink_commands: bool,
}

impl ShrinkStateView {
    /// Length of the generated sequence.
    pub open spec fn len(self) -> nat {
        self.included.len()
    }

    /// Length of the current candidate.
    pub open spec fn num_included(self) -> nat {
        count_included(self.included)
    }

    /// The state in which a search over `len` commands starts.
    pub open spec fn initial(len: nat, shrink_commands: bool) -> Self {
        ShrinkStateView {
            included: Seq::new(len, |i: int| true),
            shrink: Shrink::DeleteCommand(0),
            prev_shrink: None,
            shrink_commands,
        }
    }

    /// The invariant of the search: cursors and the remembered step stay
    /// within the sequence, nothing at or behind the deletion cursor has been
    /// left out yet, a remembered deletion names a command that is left
    /// out, and a sequence that had a command keeps at least one.
    pub open spec fn wf(self) -> bool {
        &&& self.len() <= usize::MAX
        &&& match self.shrink {
            Shrink::DeleteCommand(i) => i <= self.len() && forall|j: int|
                i <= j < self.len() ==> self.included[j],
            Shrink::ShrinkCommand(i) => i <= self.len(),
        }
        &&& match self.prev_shrink {
            None => true,
            Some(Shrink::DeleteCommand(k)) => k < self.len() && !self.included[k as int],
            Some(Shrink::ShrinkCommand(k)) => k < self.len(),
        }
        &&& self.len() > 0 ==> self.num_included() >= 1
    }

    /// Whether the next step leaves out a command: the deletion cursor stands
    /// on a position, and more than one command is left.
    pub open spec fn can_delete(self) -> bool {
        self.shrink matches Shrink::DeleteCommand(i) && i < self.len() && self.num_included() != 1
    }

    /// The state after the command at the deletion cursor was left out.
    pub open spec fn after_delete(self) -> Self {
        match self.shrink {
            Shrink::DeleteCommand(i) => ShrinkStateView {
                included: self.included.update(i as int, false),
                shrink: Shrink::DeleteCommand((i + 1) as usize),
                prev_shrink: Some(Shrink::DeleteCommand(i)),
                shrink_commands: self.shrink_commands,
            },
            Shrink::ShrinkCommand(_) => self,
        }
    }

    /// Position from which the element-wise phase looks for its next
    /// element: the start of the sequence while commands were still being
    /// left out.
    pub open spec fn cursor(self) -> nat {
        match self.shrink {
            Shrink::DeleteCommand(_) => 0,
            Shrink::ShrinkCommand(j) => j as nat,
        }
    }

    /// The same state, with the element-wise phase standing at `position`.
    pub open spec fn at_element(self, position: nat) -> Self {
        ShrinkStateView { shrink: Shrink::ShrinkCommand(position as usize), ..self }
    }

    /// The element that the element-wise phase tries next, if any.
    pub open spec fn next_candidate(self) -> Option<nat> {
        let k = first_included(self.included, self.cursor());
        if self.shrink_commands && k < self.len() {
            Some(k)
        } else {
            None
        }
    }

    /// The state once the element-wise phase has looked for its next
    /// element: the cursor stands on it, or at the end if there is none. A
    /// search that leaves elements alone does not move.
    pub open spec fn after_scan(self) -> Self {
        if self.shrink_commands {
            self.at_element(first_included(self.included, self.cursor()))
        } else {
            self
        }
    }

    /// Whether no further step can succeed.
    pub open spec fn exhausted(self) -> bool {
        self.shrink is ShrinkCommand && self.next_candidate() is None
    }

    /// The state once the element at the cursor has answered an attempt to
    /// simplify it.
    pub open spec fn after_attempt(self, simplified: bool) -> Self {
        if simplified {
            ShrinkStateView { prev_shrink: Some(self.shrink), ..self }
        } else {
            self.at_element(self.cursor() + 1)
        }
    }

    /// What taking back the remembered step amounts to.
    pub open spec fn undo(self) -> Undo {
        match self.prev_shrink {
            None => Undo::Nothing,
            Some(Shrink::DeleteCommand(k)) => Undo::Reincluded(k),
            Some(Shrink::ShrinkCommand(k)) => Undo::Element(k),
        }
    }

    /// The state after the bookkeeping's own part of taking back a step: a
    /// left-out command is included again and the step forgotten.
    pub open spec fn after_undo(self) -> Self {
        match self.prev_shrink {
            Some(Shrink::DeleteCommand(k)) => ShrinkStateView {
                included: self.included.update(k as int, true),
                prev_shrink: None,
                ..self
            },
            _ => self,
        }
    }

    /// The state once an element has answered an attempt to take back its
    /// last step: a step that cannot be taken back is forgotten.
    pub open spec fn after_element_undo(self, complicated: bool) -> Self {
        if complicated {
            self
        } else {
            ShrinkStateView { prev_shrink: None, ..self }
        }
    }

    /// An upper bound on the number of steps that can still succeed, where
    /// `budgets[k]` bounds how often the element at position `k` can still
    /// simplify itself.
    pub open spec fn potential(self, budgets: Seq<nat>) -> nat {
        match self.shrink {
            Shrink::DeleteCommand(i) => (self.len() - i) as nat + budget_from(budgets, 0),
            Shrink::ShrinkCommand(j) => if self.shrink_commands {
                budget_from(budgets, j as nat)
            } else {
                0
            },
        }
    }
}

/// Which positions are included, where the search stands and which step was
/// accepted last.
#[derive(Debug)]
pub struct ShrinkState {
    included: Vec<bool>,
    shrink: Shrink,
    prev_shrink: Option<Shrink>,
    shrink_commands: bool,
}

impl View for ShrinkState {
    type V = ShrinkStateView;

    closed spec fn view(&self) -> ShrinkStateView {
        ShrinkStateView {
            included: self.included@,
            shrink: self.shrink,
            prev_shrink: self.prev_shrink,
            shrink_commands: self.shrink_commands,
        }
    }
}

impl ShrinkState {
    /// The start of a search over a sequence of `len` commands: every
    /// command is included and the first step is to leave out the first one.
    pub fn new(len: usize, shrink_commands: bool) -> (state: ShrinkState)
        ensures
            state@ == ShrinkStateView::initial(len as nat, shrink_commands),
            state@.wf(),
    {
        let included = vec![true; len];
        proof {
            assert(included@ =~= Seq::new(len as nat, |i: int| true));
            lemma_count_all_included(included@);
        }
        ShrinkState {
            included,
            shrink: Shrink::DeleteCommand(0),
            prev_shrink: None,
            shrink_commands,
        }
    }

    /// Length of the generated sequence.
    pub fn len(&self) -> (n: usize)
        ensures
            n == self@.len(),
    {
        self.included.len()
    }

    /// Whether the command at `position` is part of the current candidate.
    pub fn is_included(&self, position: usize) -> (flag: bool)
        requires
            position < self@.len(),
        ensures
            flag == self@.included[position as int],
    {
        self.included[position]
    }

    /// The step that the search takes next.
    pub fn shrink(&self) -> (step: Shrink)
        ensures
            step == self@.shrink,
    {
        self.shrink
    }

    /// The step that was accepted last and can still be taken back.
    pub fn prev_shrink(&self) -> (step: Option<Shrink>)
        ensures
            step == self@.prev_shrink,
    {
        self.prev_shrink
    }

    /// Length of the current candidate.
    pub fn num_included(&self) -> (n: usize)
        ensures
            n == self@.num_included(),
    {
        let mut n: usize = 0;
        let mut i: usize = 0;
        while i < self.included.len()
            invariant
                i <= self.included@.len(),
                n == count_included(self.included@.take(i as int)),
                n <= i,
            decreases self.included@.len() - i,
        {
            proof {
                assert(self.included@.take(i + 1).drop_last() =~= self.included@.take(i as int));
            }
            if self.included[i] {
                n += 1;
            }
            i += 1;
        }
        proof {
            assert(self.included@.take(i as int) =~= self.included@);
        }
        n
    }

    /// The deletion phase's step: leaves out the command at the cursor and
    /// remembers that, or, where the cursor is past the end or one command
    /// is left, hands over to the element-wise phase.
    pub fn delete_next(&mut self) -> (deleted: bool)
        requires
            old(self)@.wf(),
        ensures
            final(self)@.wf(),
            deleted == old(self)@.can_delete(),
            deleted ==> final(self)@ == old(self)@.after_delete(),
            !deleted ==> final(self)@ == old(self)@.at_element(old(self)@.cursor()),
    {
        match self.shrink {
            Shrink::DeleteCommand(index) => {
                if index >= self.included.len() || self.num_included() == 1 {
                    self.shrink = Shrink::ShrinkCommand(0);
                    false
                } else {
                    proof {
                        lemma_count_update(self.included@, index as int, false);
                    }
                    self.included.set(index, false);
                    self.prev_shrink = Some(self.shrink);
                    self.shrink = Shrink::DeleteCommand(index + 1);
                    true
                }
            },
            Shrink::ShrinkCommand(_) => false,
        }
    }

    /// Starts or continues the element-wise phase: moves the cursor over
    /// what was left out to the next included element and names it; `None`
    /// once the end is reached, or where elements are not to be simplified
    /// at all.
    pub fn next_candidate(&mut self) -> (target: Option<usize>)
        requires
            old(self)@.wf(),
        ensures
            final(self)@.wf(),
            final(self)@ == old(self)@.after_scan(),
            match target {
                Some(k) => old(self)@.next_candidate() == Some(k as nat),
                None => old(self)@.next_candidate() is None,
            },
    {
        if !self.shrink_commands {
            return None;
        }
        let mut index: usize = match self.shrink {
            Shrink::DeleteCommand(_) => 0,
            Shrink::ShrinkCommand(j) => j,
        };
        while index < self.included.len() && !self.included[index]
            invariant
                index <= self.included@.len(),
                first_included(self.included@, index as nat) == first_included(
                    self.included@,
                    old(self)@.cursor(),
                ),
                self.included@ == old(self)@.included,
            decreases self.included@.len() - index,
        {
            index += 1;
        }
        self.shrink = Shrink::ShrinkCommand(index);
        if index < self.included.len() {
            Some(index)
        } else {
            None
        }
    }

    /// Records how the element at the cursor answered an attempt to
    /// simplify it: a success is remembered as the last accepted step, a
    /// failure moves the cursor on. Returns `simplified`.
    pub fn settle(&mut self, simplified: bool) -> (accepted: bool)
        requires
            old(self)@.wf(),
            old(self)@.shrink is ShrinkCommand,
            old(self)@.cursor() < old(self)@.len(),
        ensures
            final(self)@.wf(),
            accepted == simplified,
            final(self)@ == old(self)@.after_attempt(simplified),
    {
        if simplified {
            self.prev_shrink = Some(self.shrink);
        } else {
            match self.shrink {
                Shrink::ShrinkCommand(j) => {
                    self.shrink = Shrink::ShrinkCommand(j + 1);
                },
                Shrink::DeleteCommand(_) => {},
            }
        }
        simplified
    }

    /// Takes back the last accepted step as far as the bookkeeping can: a
    /// command that was left out is included again and the step forgotten.
    /// A step of an element is only named; the element has to take it back.
    pub fn undo(&mut self) -> (undone: Undo)
        requires
            old(self)@.wf(),
        ensures
            final(self)@.wf(),
            undone == old(self)@.undo(),
            final(self)@ == old(self)@.after_undo(),
    {
        match self.prev_shrink {
            None => Undo::Nothing,
            Some(Shrink::DeleteCommand(index)) => {
                proof {
                    lemma_count_update(self.included@, index as int, true);
                }
                self.included.set(index, true);
                self.prev_shrink = None;
                Undo::Reincluded(index)
            },
            Some(Shrink::ShrinkCommand(index)) => Undo::Element(index),
        }
    }

    /// Records how an element answered an attempt to take back its last
    /// step: where it could not, the step is forgotten. Returns
    /// `complicated`.
    pub fn settle_undo(&mut self, complicated: bool) -> (reverted: bool)
        requires
            old(self)@.wf(),
        ensures
            final(self)@.wf(),
            reverted == complicated,
            final(self)@ == old(self)@.after_element_undo(complicated),
    {
        if !complicated {
            self.prev_shrink = None;
        }
        complicated
    }
}

/// The entries of `items` at the positions that `flags` marks, in their
/// order.
pub open spec fn select<T>(items: Seq<T>, flags: Seq<bool>) -> Seq<T>
    decreases items.len(),
{
    if items.len() == 0 || flags.len() != items.len() {
        Seq::empty()
    } else if flags.last() {
        select(items.drop_last(), flags.drop_last()).push(items.last())
    } else {
        select(items.drop_last(), flags.drop_last())
    }
}

/// Selecting from one entry more takes that entry if it is marked and
/// changes nothing if it is not.
pub proof fn lemma_select_step<T>(items: Seq<T>, flags: Seq<bool>, p: int)
    requires
        items.len() == flags.len(),
        0 <= p < items.len(),
    ensures
        select(items.take(p + 1), flags.take(p + 1)) == if flags[p] {
            select(items.take(p), flags.take(p)).push(items[p])
        } else {
            select(items.take(p), flags.take(p))
        },
{
    assert(items.take(p + 1).drop_last() =~= items.take(p));
    assert(flags.take(p + 1).drop_last() =~= flags.take(p));
}

/// As many entries are selected as positions are marked.
pub proof fn lemma_select_len<T>(items: Seq<T>, flags: Seq<bool>)
    requires
        items.len() == flags.len(),
    ensures
        select(items, flags).len() == count_included(flags),
    decreases items.len(),
{
    if items.len() > 0 {
        lemma_select_len(items.drop_last(), flags.drop_last());
    }
}

/// Budgets of which none has grown add up to no more than before.
pub proof fn lemma_budget_monotone(before: Seq<nat>, after: Seq<nat>, from: nat)
    requires
        before.len() == after.len(),
        forall|j: int| 0 <= j < before.len() ==> after[j] <= before[j],
    ensures
        budget_from(after, from) <= budget_from(before, from),
    decreases before.len() - from,
{
    if from < before.len() {
        lemma_budget_monotone(before, after, from + 1);
    }
}

/// Budgets of which none has grown, and of which the one at `used` has
/// become smaller, add up to less than before from every position up to
/// `used`.
pub proof fn lemma_budget_used(before: Seq<nat>, after: Seq<nat>, from: nat, used: nat)
    requires
        before.len() == after.len(),
        forall|j: int| 0 <= j < before.len() ==> after[j] <= before[j],
        from <= used < before.len(),
        after[used as int] < before[used as int],
    ensures
        budget_from(after, from) < budget_from(before, from),
    decreases used - from,
{
    if from < used {
        lemma_budget_used(before, after, from + 1, used);
    } else {
        lemma_budget_monotone(before, after, from + 1);
    }
}

/// What is left from a later position on is no more than what is left from
/// an earlier one.
pub proof fn lemma_budget_suffix(budgets: Seq<nat>, earlier: nat, later: nat)
    requires
        earlier <= later,
    ensures
        budget_from(budgets, later) <= budget_from(budgets, earlier),
    decreases later - earlier,
{
    if earlier < later {
        lemma_budget_suffix(budgets, earlier + 1, later);
        if earlier >= budgets.len() {
            assert(budget_from(budgets, earlier + 1) == 0);
        }
    }
}

/// `first_included` names the first included position at or after `from`:
/// it lies between `from` and the length, it is included unless it is the
/// length, and nothing between `from` and it is.
pub proof fn lemma_first_included(flags: Seq<bool>, from: nat)
    ensures
        from <= flags.len() ==> from <= first_included(flags, from) <= flags.len(),
        first_included(flags, from) < flags.len() ==> flags[first_included(flags, from) as int],
        forall|j: int| from <= j < first_included(flags, from) ==> !flags[j],
    decreases flags.len() - from,
{
    if from < flags.len() && !flags[from as int] {
        lemma_first_included(flags, from + 1);
    }
}

/// A sequence in which every position is included counts its length.
pub proof fn lemma_count_all_included(flags: Seq<bool>)
    requires
        forall|i: int| 0 <= i < flags.len() ==> flags[i],
    ensures
        count_included(flags) == flags.len(),
    decreases flags.len(),
{
    if flags.len() > 0 {
        lemma_count_all_included(flags.drop_last());
    }
}

/// No more positions are included than there are.
pub proof fn lemma_count_bounded(flags: Seq<bool>)
    ensures
        count_included(flags) <= flags.len(),
    decreases flags.len(),
{
    if flags.len() > 0 {
        lemma_count_bounded(flags.drop_last());
    }
}

/// Changing one flag changes the count by at most one, and by exactly one
/// where the flag differs from what it was.
pub proof fn lemma_count_update(flags: Seq<bool>, position: int, flag: bool)
    requires
        0 <= position < flags.len(),
    ensures
        count_included(flags.update(position, flag)) == count_included(flags) + (if flag {
            1int
        } else {
            0int
        }) - (if flags[position] {
            1int
        } else {
            0int
        }),
    decreases flags.len(),
{
    let updated = flags.update(position, flag);
    if position == flags.len() - 1 {
        assert(updated.drop_last() =~= flags.drop_last());
    } else {
        assert(updated.drop_last() =~= flags.drop_last().update(position, flag));
        lemma_count_update(flags.drop_last(), position, flag);
    }
}

} // verus!
