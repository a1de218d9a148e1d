//! One generated command and what it needs to simplify itself.

use proptest::strategy::{BoxedStrategy, Strategy, ValueTree};
use proptest::test_runner::{Reason, TestRunner};
use vstd::prelude::*;

verus! {

/// Why a strategy could not produce a value.
#[verifier::external_type_specification]
#[verifier::external_body]
pub struct ExReason(Reason);

/// A command as its strategy produced it: a value tree that reports the
/// command it currently stands for and can be asked to simplify it, or to
/// take a simplification back. The tree is code of the strategy's author:
/// the search treats every answer it gives as possible.
#[verifier::external_body]
#[verifier::reject_recursive_types(C)]
pub struct Element<C> {
    tree: Box<dyn ValueTree<Value = C>>,
}

impl<C: std::fmt::Debug> Element<C> {
    /// Whether `element` is what `strategy` gave when it was asked for one.
    pub closed spec fn produced_by(strategy: BoxedStrategy<C>, element: Element<C>) -> bool {
        exists|runner: &mut TestRunner| #[trigger]
            call_ensures(
                Element::<C>::generate,
                (&strategy, runner),
                Ok::<Element<C>, Reason>(element),
            )
    }

    /// Whether `strategy` gave a reason instead of an element when it was
    /// asked for one, and `text` is how that reason reads.
    pub closed spec fn refused_by(strategy: BoxedStrategy<C>, text: Seq<char>) -> bool {
        exists|runner: &mut TestRunner, reason: Reason, rendered: String|
            {
                &&& #[trigger] call_ensures(
                    Element::<C>::generate,
                    (&strategy, runner),
                    Err::<Element<C>, Reason>(reason),
                )
                &&& #[trigger] vstd::string::to_string_from_display_ensures::<Reason>(
                    &reason,
                    rendered,
                )
                &&& rendered@ == text
            }
    }

    /// Whether `command` is what the element gave when it was asked what
    /// it stands for.
    pub closed spec fn stands_for(self, command: C) -> bool {
        call_ensures(Element::<C>::current, (&self,), command)
    }

    /// Whether the element, asked to simplify itself, became `next` and
    /// answered `changed`.
    pub closed spec fn simplified_to(self, next: Element<C>, changed: bool) -> bool {
        exists|element: &mut Element<C>|
            mut_ref_current(element) == self && #[trigger] call_ensures(
                Element::<C>::simplify_reaching,
                (element,),
                (changed, Ghost(next)),
            )
    }

    /// Whether the element, asked to take back its last step, became `next`
    /// and answered `changed`.
    pub closed spec fn complicated_to(self, next: Element<C>, changed: bool) -> bool {
        exists|element: &mut Element<C>|
            mut_ref_current(element) == self && #[trigger] call_ensures(
                Element::<C>::complicate_reaching,
                (element,),
                (changed, Ghost(next)),
            )
    }

    /// Asks `strategy` for a fresh element; where it gives none, its reason
    /// is returned as text.
    pub(crate) fn produce(strategy: &BoxedStrategy<C>, runner: &mut TestRunner) -> (element:
        Result<Element<C>, String>)
        ensures
            element matches Ok(produced) ==> Self::produced_by(*strategy, produced),
            element matches Err(text) ==> Self::refused_by(*strategy, text@),
    {
        match Self::generate(strategy, runner) {
            Ok(produced) => Ok(produced),
            Err(reason) => {
                let text = reason.to_string();
                assert(Self::refused_by(*strategy, text@));
                Err(text)
            },
        }
    }

    /// Asks the element what it stands for.
    pub(crate) fn command(&self) -> (command: C)
        ensures
            self.stands_for(command),
    {
        self.current()
    }

    /// Asks the element to simplify itself and tells where it stands then.
    fn simplify_reaching(&mut self) -> (answer: (bool, Ghost<Element<C>>))
        ensures
            answer.1@ == *final(self),
    {
        let changed = self.simplify();
        (changed, Ghost(*self))
    }

    /// Asks the element to take back its last step and tells where it
    /// stands then.
    fn complicate_reaching(&mut self) -> (answer: (bool, Ghost<Element<C>>))
        ensures
            answer.1@ == *final(self),
    {
        let changed = self.complicate();
        (changed, Ghost(*self))
    }

    /// Asks the element to simplify itself.
    pub(crate) fn ask_to_simplify(&mut self) -> (changed: bool)
        ensures
            old(self).simplified_to(*final(self), changed),
    {
        let answer = self.simplify_reaching();
        answer.0
    }

    /// Asks the element to take back its last step.
    pub(crate) fn ask_to_complicate(&mut self) -> (changed: bool)
        ensures
            old(self).complicated_to(*final(self), changed),
    {
        let answer = self.complicate_reaching();
        answer.0
    }

    /// Wraps `Strategy::new_tree` of a boxed strategy: a fresh element drawn
    /// from the runner's random source, or the strategy's reason for not
    /// giving one.
    #[verifier::external_body]
    pub(crate) fn generate(strategy: &BoxedStrategy<C>, runner: &mut TestRunner) -> (element:
        Result<Element<C>, Reason>) {
        match strategy.new_tree(runner) {
            Ok(tree) => Ok(Element { tree }),
            Err(reason) => Err(reason),
        }
    }

    /// Wraps `ValueTree::current`: the command the element stands for now.
    #[verifier::external_body]
    pub(crate) fn current(&self) -> (command: C) {
        self.tree.current()
    }

    /// Wraps `ValueTree::simplify`: asks the element for a simpler command
    /// and tells whether it moved.
    #[verifier::external_body]
    pub(crate) fn simplify(&mut self) -> (changed: bool) {
        self.tree.simplify()
    }

    /// Wraps `ValueTree::complicate`: asks the element to take back part of
    /// its last simplification and tells whether it moved.
    #[verifier::external_body]
    pub(crate) fn complicate(&mut self) -> (changed: bool) {
        self.tree.complicate()
    }
}

} // verus!
