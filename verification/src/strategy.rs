//! Building a random command sequence from a model.

use crate::element::Element;
use crate::errors::Error;
use crate::random::{choose_weighted, draw_size, sized_by, total_weight};
use crate::sequence::{advance, advanced_to, reset_to, restart};
use crate::shrink::ShrinkStateView;
use crate::traits::StateMachine;
use crate::tree::{CommandSequenceValueTree, CommandSequenceView};
use proptest::strategy::BoxedStrategy;
use proptest::test_runner::TestRunner;
use vstd::prelude::*;

verus! {

/// What a sequence builder was set up with.
pub struct CommandSequenceStrategyView {
    /// Smallest length of a generated sequence.
    pub min_size: usize,
    /// Largest length of a generated sequence.
    pub max_size: usize,
    /// Whether the search over a generated sequence simplifies elements.
    pub shrink_commands: bool,
}

/// Builds command sequences of a length between two bounds, each command
/// drawn from what the model offers in the state that the earlier commands
/// have led it to.
#[derive(Debug)]
pub struct CommandSequenceStrategy<SM> where SM: StateMachine + Clone {
    state_machine: SM,
    min_size: usize,
    max_size: usize,
    shrink_commands: bool,
}

impl<SM> View for CommandSequenceStrategy<SM> where SM: StateMachine + Clone {
    type V = CommandSequenceStrategyView;

    closed spec fn view(&self) -> CommandSequenceStrategyView {
        CommandSequenceStrategyView {
            min_size: self.min_size,
            max_size: self.max_size,
            shrink_commands: self.shrink_commands,
        }
    }
}

/// Whether `offers` is what `model` offered when it was asked which
/// commands are possible.
pub open spec fn offered<SM: StateMachine>(
    model: SM,
    offers: Vec<(usize, BoxedStrategy<SM::Command>)>,
) -> bool {
    call_ensures(SM::commands, (&model,), offers)
}

/// The weights of `offers`, in their order.
pub open spec fn weights<C>(offers: Seq<(usize, BoxedStrategy<C>)>) -> Seq<usize> {
    Seq::new(offers.len(), |i: int| offers[i].0)
}

/// Whether `produced` can be what came of drawing from `offers`. An
/// element comes only of offers whose weights add up to more than zero and
/// to no more than `usize::MAX`, and then it is what the strategy of an
/// offer of positive weight produced.
pub open spec fn drawn_from<C: std::fmt::Debug>(
    offers: Seq<(usize, BoxedStrategy<C>)>,
    produced: Element<C>,
) -> bool {
    &&& 0 < total_weight(weights(offers)) <= usize::MAX
    &&& exists|i: int|
        0 <= i < offers.len() && offers[i].0 > 0 && #[trigger] Element::produced_by(
            offers[i].1,
            produced,
        )
}

/// Whether `error` can be what came of drawing from `offers`. A draw
/// fails with a generation error, and only where the weights add up to zero
/// or to more than `usize::MAX`, or where the strategy of an offer of
/// positive weight refuses to produce an element; the error then reads as
/// the strategy's reason does.
pub open spec fn refused_from<C: std::fmt::Debug>(
    offers: Seq<(usize, BoxedStrategy<C>)>,
    error: Error,
) -> bool {
    &&& error is Generation
    &&& {
        ||| !(0 < total_weight(weights(offers)) <= usize::MAX)
        ||| exists|i: int|
            0 <= i < offers.len() && offers[i].0 > 0 && #[trigger] Element::refused_by(
                offers[i].1,
                error->reason@,
            )
    }
}

/// Whether `produced` is what a draw came to with the model standing at
/// `model`: it was drawn from what the model offered there, and the command
/// that it stands for led the model on to `next`.
pub open spec fn drawn_in<SM: StateMachine>(
    model: SM,
    produced: Element<SM::Command>,
    next: SM,
) -> bool {
    &&& exists|offers: Vec<(usize, BoxedStrategy<SM::Command>)>| #[trigger]
        offered(model, offers) && drawn_from(offers@, produced)
    &&& exists|command: SM::Command| #[trigger]
        produced.stands_for(command) && advanced_to(model, command, next)
}

/// Whether `error` is what a draw came to with the model standing at
/// `model`: the draw from what the model offered there failed with it.
pub open spec fn refused_in<SM: StateMachine>(model: SM, error: Error) -> bool {
    exists|offers: Vec<(usize, BoxedStrategy<SM::Command>)>| #[trigger]
        offered(model, offers) && refused_from(offers@, error)
}

/// Whether `elements` were drawn one after the other by a model that stood
/// at `start` and went through `models` in the course: it was reset first,
/// and each element was drawn where the elements before it had led the
/// model, and led it on.
pub open spec fn generated_along<SM: StateMachine>(
    start: SM,
    elements: Seq<Element<SM::Command>>,
    models: Seq<SM>,
) -> bool {
    &&& models.len() == elements.len() + 1
    &&& reset_to(start, models[0])
    &&& forall|k: int|
        #![trigger models[k]]
        0 <= k < elements.len() ==> drawn_in(models[k], elements[k], models[k + 1])
}

/// Whether `elements` are a sequence generated for the model `model`,
/// together with the model `paired` that goes with it: the elements were
/// drawn by a clone of the model, which was reset at the end.
pub open spec fn generated<SM: StateMachine + Clone>(
    model: SM,
    elements: Seq<Element<SM::Command>>,
    paired: SM,
) -> bool {
    exists|copy: SM, models: Seq<SM>|
        {
            &&& cloned(model, copy)
            &&& #[trigger] generated_along(copy, elements, models)
            &&& reset_to(models.last(), paired)
        }
}

/// Whether `error` is why no sequence of `size` commands was generated for
/// the model `model`: a clone of the model had drawn fewer elements than
/// that when the next draw failed with the error.
pub open spec fn generation_failed<SM: StateMachine + Clone>(
    model: SM,
    size: usize,
    error: Error,
) -> bool {
    exists|copy: SM, elements: Seq<Element<SM::Command>>, models: Seq<SM>|
        {
            &&& cloned(model, copy)
            &&& #[trigger] generated_along(copy, elements, models)
            &&& elements.len() < size
            &&& refused_in(models.last(), error)
        }
}

/// Whether `tree`, with the model `paired`, is what a builder set up as
/// `strategy` for the model `model` came to, with a runner that stood at
/// `runner`: the length was drawn from the runner between the builder's
/// bounds, the elements were generated for the model, and the search over
/// them stands at its start.
pub open spec fn built<SM: StateMachine + Clone>(
    strategy: CommandSequenceStrategyView,
    model: SM,
    runner: TestRunner,
    tree: CommandSequenceView<SM::Command>,
    paired: SM,
) -> bool {
    &&& strategy.min_size <= tree.len() <= strategy.max_size
    &&& sized_by(runner, strategy.min_size, strategy.max_size, tree.len() as usize)
    &&& generated(model, tree.elements, paired)
    &&& tree.state == ShrinkStateView::initial(tree.len(), strategy.shrink_commands)
}

/// Whether `error` is why a builder set up as `strategy` for the model
/// `model` came to no sequence, with a runner that stood at `runner`.
pub open spec fn not_built<SM: StateMachine + Clone>(
    strategy: CommandSequenceStrategyView,
    model: SM,
    runner: TestRunner,
    error: Error,
) -> bool {
    exists|size: usize| #[trigger]
        sized_by(runner, strategy.min_size, strategy.max_size, size) && generation_failed(
            model,
            size,
            error,
        )
}

/// The weights of the commands that a model offers, in their order.
fn weights_of<C>(commands: &Vec<(usize, BoxedStrategy<C>)>) -> (weights: Vec<usize>)
    ensures
        weights@ == self::weights(commands@),
{
    let mut weights: Vec<usize> = Vec::new();
    let mut i: usize = 0;
    while i < commands.len()
        invariant
            i <= commands@.len(),
            weights@.len() == i,
            forall|k: int| 0 <= k < i ==> weights@[k] == commands@[k].0,
        decreases commands@.len() - i,
    {
        weights.push(commands[i].0);
        i += 1;
    }
    assert(weights@ =~= self::weights(commands@));
    weights
}

/// Draws the next command of a sequence: asks the model what is possible
/// in its current state, chooses one of the offers by weight, lets the
/// chosen strategy produce an element, and advances the model by the
/// command that the element stands for. Fails without touching the model
/// where the model offers nothing, or nothing of positive weight, and where
/// the chosen strategy gives no element.
pub fn generate_command<SM>(state_machine: &mut SM, runner: &mut TestRunner) -> (element: Result<
    Element<SM::Command>,
    Error,
>) where SM: StateMachine
    ensures
        match element {
            Ok(produced) => drawn_in(*old(state_machine), produced, *final(state_machine)),
            Err(error) => refused_in(*old(state_machine), error) && *final(state_machine) == *old(
                state_machine,
            ),
        },
{
    let possible_commands = state_machine.commands();
    assert(offered(*old(state_machine), possible_commands));
    let weights = weights_of(&possible_commands);
    let choice = match choose_weighted(runner, &weights) {
        Ok(choice) => choice,
        Err(error) => {
            assert(refused_from(possible_commands@, error));
            return Err(error);
        },
    };
    match Element::produce(&possible_commands[choice].1, runner) {
        Ok(element) => {
            assert(drawn_from(possible_commands@, element)) by {
                assert(weights@[choice as int] == possible_commands@[choice as int].0);
                assert(Element::produced_by(possible_commands@[choice as int].1, element));
            }
            let command = element.command();
            advance(state_machine, &command);
            Ok(element)
        },
        Err(reason) => {
            let error = Error::new_generation_error(reason);
            assert(refused_from(possible_commands@, error)) by {
                assert(weights@[choice as int] == possible_commands@[choice as int].0);
                assert(Element::refused_by(possible_commands@[choice as int].1, error->reason@));
            }
            Err(error)
        },
    }
}

impl<SM> CommandSequenceStrategy<SM> where SM: StateMachine + Clone {
    /// The model that sequences are generated for.
    pub closed spec fn model(&self) -> SM {
        self.state_machine
    }

    fn new(min_size: usize, max_size: usize, state_machine: SM) -> (strategy: Self)
        requires
            max_size >= min_size,
        ensures
            strategy@ == (CommandSequenceStrategyView { min_size, max_size, shrink_commands: false }),
            strategy.model() == state_machine,
    {
        CommandSequenceStrategy { state_machine, min_size, max_size, shrink_commands: false }
    }

    /// The same builder, whose sequences are searched with or without the
    /// simplification of single commands.
    pub fn shrink_commands(self, shrink_commands: bool) -> (strategy: Self)
        ensures
            strategy@ == (CommandSequenceStrategyView { shrink_commands, ..self@ }),
            strategy.model() == self.model(),
    {
        CommandSequenceStrategy {
            state_machine: self.state_machine,
            min_size: self.min_size,
            max_size: self.max_size,
            shrink_commands,
        }
    }

    /// Generates a sequence and sets up the search over it. The length is
    /// drawn between the two bounds; the commands are drawn one after the
    /// other against a copy of the model, which starts from its initial
    /// state and is reset again at the end. Every command is included, and
    /// the search starts by leaving out the first. The first command that
    /// cannot be drawn fails the whole sequence.
    pub fn new_tree(&self, runner: &mut TestRunner) -> (tree: Result<
        CommandSequenceValueTree<SM>,
        Error,
    >)
        requires
            self@.min_size <= self@.max_size,
        ensures
            match tree {
                Ok(t) => t@.wf() && built(self@, self.model(), *old(runner), t@, t.model()),
                Err(error) => not_built(self@, self.model(), *old(runner), error),
            },
            tree matches Err(e) ==> e is Generation,
            self@.max_size == 0 ==> tree is Ok,
    {
        let size = draw_size(runner, self.min_size, self.max_size);
        let mut state_machine = self.state_machine.clone();
        let ghost copy = state_machine;
        restart(&mut state_machine);
        let mut elements: Vec<Element<SM::Command>> = Vec::new();
        let ghost mut models: Seq<SM> = seq![state_machine];
        while elements.len() < size
            invariant
                elements@.len() <= size <= self@.max_size,
                models.len() == elements@.len() + 1,
                models.last() == state_machine,
                generated_along(copy, elements@, models),
                cloned(self.model(), copy),
                sized_by(*old(runner), self@.min_size, self@.max_size, size),
            decreases size - elements@.len(),
        {
            let ghost model = state_machine;
            match generate_command(&mut state_machine, runner) {
                Ok(element) => {
                    proof {
                        let before = models;
                        let drawn = elements@;
                        models = models.push(state_machine);
                        assert forall|k: int|
                            #![trigger models[k]]
                            0 <= k < drawn.len() + 1 implies drawn_in(
                            models[k],
                            drawn.push(element)[k],
                            models[k + 1],
                        ) by {
                            if k < drawn.len() {
                                assert(models[k] == before[k]);
                                assert(models[k + 1] == before[k + 1]);
                            }
                        }
                    }
                    elements.push(element);
                },
                Err(error) => {
                    assert(generation_failed(self.model(), size, error));
                    return Err(error);
                },
            }
        }
        restart(&mut state_machine);
        assert(generated(self.model(), elements@, state_machine));
        Ok(CommandSequenceValueTree::new(elements, self.shrink_commands, state_machine))
    }
}

/// A builder of command sequences of at least `min_size` and at most
/// `max_size` commands for the model `state_machine`. The search over its
/// sequences leaves single commands as they are.
pub fn command_sequence<SM>(min_size: usize, max_size: usize, state_machine: SM) -> (strategy:
    CommandSequenceStrategy<SM>) where SM: StateMachine + Clone
    requires
        min_size <= max_size,
    ensures
        strategy@ == (CommandSequenceStrategyView { min_size, max_size, shrink_commands: false }),
        strategy.model() == state_machine,
{
    CommandSequenceStrategy::new(min_size, max_size, state_machine)
}

} // verus!
