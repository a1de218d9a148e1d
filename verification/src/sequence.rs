//! A sequence of commands, ready to be replayed.
//!
//! What a replay comes to is decided by the system and the model, which
//! are the test author's code. The contracts here say which questions were
//! put to them and what was made of each answer. Nothing is claimed of
//! the answers themselves: `answered`, `accepted`, `rejected`, `reset_to`
//! and `advanced_to` can be had of an answer only from the call that gave
//! it.

use crate::errors::Error;
use crate::traits::{StateMachine, SystemUnderTest};
use vstd::prelude::*;

verus! {

/// Hands one command to the system and returns its answer.
fn answer_of<C, R>(system_under_test: &mut Box<dyn SystemUnderTest<C, R>>, command: &C) -> (answer:
    Result<R, Error>) {
    system_under_test.run(command)
}

/// Whether `answer` is what a system gave when it was asked `command`.
pub closed spec fn answered<C, R>(command: C, answer: Result<R, Error>) -> bool {
    exists|system_under_test: &mut Box<dyn SystemUnderTest<C, R>>| #[trigger]
        call_ensures(answer_of::<C, R>, (system_under_test, &command), answer)
}

/// Asks the system `command`.
pub(crate) fn ask<C, R>(system_under_test: &mut Box<dyn SystemUnderTest<C, R>>, command: &C) -> (answer:
    Result<R, Error>)
    ensures
        answered(*command, answer),
{
    answer_of(system_under_test, command)
}

/// Whether `model` found the `response` to `command` in order.
pub open spec fn accepted<SM: StateMachine>(
    model: SM,
    command: SM::Command,
    response: SM::CommandResult,
) -> bool {
    exists|verdict: Result<(), Error>|
        verdict is Ok && #[trigger] call_ensures(
            SM::postcondition,
            (&model, &command, &response),
            verdict,
        )
}

/// Whether `model` objected with `error` to the `response` to `command`.
pub open spec fn rejected<SM: StateMachine>(
    model: SM,
    command: SM::Command,
    response: SM::CommandResult,
    error: Error,
) -> bool {
    call_ensures(SM::postcondition, (&model, &command, &response), Err::<(), Error>(error))
}

/// Resets the model and tells where it stands then.
fn reset_model<SM: StateMachine>(model: &mut SM) -> (reached: Ghost<SM>)
    ensures
        reached@ == *final(model),
{
    model.reset();
    Ghost(*model)
}

/// Advances the model by `command` and tells where it stands then.
fn advance_model<SM: StateMachine>(model: &mut SM, command: &SM::Command) -> (reached: Ghost<SM>)
    ensures
        reached@ == *final(model),
{
    model.next_state(command);
    Ghost(*model)
}

/// Whether a model that stood at `before` stood at `after` once it was
/// reset.
pub closed spec fn reset_to<SM: StateMachine>(before: SM, after: SM) -> bool {
    exists|model: &mut SM|
        mut_ref_current(model) == before && #[trigger] call_ensures(
            reset_model::<SM>,
            (model,),
            Ghost(after),
        )
}

/// Whether a model that stood at `before` stood at `after` once it was
/// advanced by `command`.
pub closed spec fn advanced_to<SM: StateMachine>(
    before: SM,
    command: SM::Command,
    after: SM,
) -> bool {
    exists|model: &mut SM|
        mut_ref_current(model) == before && #[trigger] call_ensures(
            advance_model::<SM>,
            (model, &command),
            Ghost(after),
        )
}

/// Resets the model.
pub(crate) fn restart<SM: StateMachine>(model: &mut SM)
    ensures
        reset_to(*old(model), *final(model)),
{
    let _ = reset_model(model);
}

/// Advances the model by `command`.
pub(crate) fn advance<SM: StateMachine>(model: &mut SM, command: &SM::Command)
    ensures
        advanced_to(*old(model), *command, *final(model)),
{
    let _ = advance_model(model, command);
}

/// Whether `command` went through with a model that stood at `model`: the
/// system answered it, the model found the answer in order, and advancing
/// the model by the command led it to `next`.
pub open spec fn passed<SM: StateMachine>(model: SM, command: SM::Command, next: SM) -> bool {
    &&& exists|response: SM::CommandResult|
        {
            &&& answered(command, Ok::<SM::CommandResult, Error>(response))
            &&& #[trigger] accepted(model, command, response)
        }
    &&& advanced_to(model, command, next)
}

/// Whether `error` reports that the system failed with `cause`: it is an
/// error of the system's execution that reads as the cause does.
pub open spec fn reports(error: Error, cause: Error) -> bool {
    error matches Error::SystemExecution { source } && source@ == cause.message_text()
}

/// Whether `command` failed with `error`, with a model that stood at
/// `model`: either the system failed and the error reports that, or the
/// system gave a response and the error is what the model made of it.
pub open spec fn failed<SM: StateMachine>(model: SM, command: SM::Command, error: Error) -> bool {
    ||| exists|cause: Error|
        {
            &&& #[trigger] answered(command, Err::<SM::CommandResult, Error>(cause))
            &&& reports(error, cause)
        }
    ||| exists|response: SM::CommandResult|
        {
            &&& answered(command, Ok::<SM::CommandResult, Error>(response))
            &&& #[trigger] rejected(model, command, response, error)
        }
}

/// The error that a replay ended in, if it ended in one.
pub open spec fn failure_of(outcome: Result<(), Error>) -> Option<Error> {
    match outcome {
        Ok(_) => None,
        Err(error) => Some(error),
    }
}

/// Whether `failure` is what a replay of `commands` came to, with a model
/// that stood at `start` before and went through `models` in its course:
/// the model was reset, and then one command after the other went through
/// and led the model on. A replay that was in order went through all the
/// commands. A replay that ended in an error went through the commands
/// before the one that failed with that error, and left the model where it
/// stood then.
pub open spec fn replayed_along<SM: StateMachine>(
    start: SM,
    commands: Seq<SM::Command>,
    models: Seq<SM>,
    failure: Option<Error>,
) -> bool {
    &&& 1 <= models.len() <= commands.len() + 1
    &&& reset_to(start, models[0])
    &&& forall|i: int|
        #![trigger models[i]]
        0 <= i < models.len() - 1 ==> passed(models[i], commands[i], models[i + 1])
    &&& match failure {
        None => models.len() == commands.len() + 1,
        Some(error) => models.len() <= commands.len() && failed(
            models.last(),
            commands[models.len() - 1],
            error,
        ),
    }
}

/// Whether `failure` is what a replay of `commands` came to: `None` for a
/// replay that was in order, else the error that it ended in.
pub open spec fn replayed<SM: StateMachine>(
    commands: Seq<SM::Command>,
    failure: Option<Error>,
) -> bool {
    exists|start: SM, models: Seq<SM>| #[trigger] replayed_along(start, commands, models, failure)
}

/// The commands of one candidate, in the order in which they are applied,
/// together with the model that judges the replay.
#[derive(Debug)]
pub struct CommandSequence<SM> where SM: StateMachine {
    commands: Vec<SM::Command>,
    state_machine: SM,
    seed: Option<[u8; 32]>,
}

impl<SM> View for CommandSequence<SM> where SM: StateMachine {
    type V = Seq<SM::Command>;

    closed spec fn view(&self) -> Seq<SM::Command> {
        self.commands@
    }
}

impl<SM> CommandSequence<SM> where SM: StateMachine {
    /// The model that judges the replay.
    pub closed spec fn model(&self) -> SM {
        self.state_machine
    }

    /// The seed of the plan that the sequence was reported by, if it was
    /// reported by one.
    pub closed spec fn spec_seed(&self) -> Option<[u8; 32]> {
        self.seed
    }

    /// The sequence of `commands`, judged by `state_machine`.
    pub fn new(commands: Vec<SM::Command>, state_machine: SM) -> (sequence: Self)
        ensures
            sequence@ == commands@,
            sequence.model() == state_machine,
            sequence.spec_seed() is None,
    {
        CommandSequence { commands, state_machine, seed: None }
    }

    /// The same sequence, marked with the seed of the plan that reports it.
    pub fn with_seed(self, seed: [u8; 32]) -> (sequence: Self)
        ensures
            sequence@ == self@,
            sequence.model() == self.model(),
            sequence.spec_seed() == Some(seed),
    {
        CommandSequence { commands: self.commands, state_machine: self.state_machine, seed: Some(seed) }
    }

    /// The seed of the plan that reported the sequence: a plan that is run
    /// again with this seed, and is set up alike otherwise, generates the
    /// same sequences. `None` for a sequence that no plan has reported.
    pub fn seed(&self) -> (seed: Option<[u8; 32]>)
        ensures
            seed == self.spec_seed(),
    {
        self.seed
    }

    /// Number of commands.
    pub fn len(&self) -> (n: usize)
        ensures
            n == self@.len(),
    {
        self.commands.len()
    }

    /// The commands, in the order in which they are applied.
    pub fn commands(&self) -> (commands: &Vec<SM::Command>)
        ensures
            commands@ == self@,
    {
        &self.commands
    }

    /// Gives up the sequence for its commands.
    pub fn into_commands(self) -> (commands: Vec<SM::Command>)
        ensures
            commands@ == self@,
    {
        self.commands
    }

    /// Replays the sequence: the model starts from its initial state, and
    /// each command in turn is applied to the system, its response held
    /// against the model's postcondition, and the model advanced. The first
    /// failure, of the system or of a postcondition, ends the replay and is
    /// returned; no later command is applied. A failure of the system is
    /// returned as an error of the system's execution, whatever kind of
    /// error the system gave.
    pub fn run(
        &mut self,
        system_under_test: &mut Box<dyn SystemUnderTest<SM::Command, SM::CommandResult>>,
    ) -> (outcome: Result<(), Error>)
        ensures
            final(self)@ == old(self)@,
            final(self).spec_seed() == old(self).spec_seed(),
            exists|models: Seq<SM>|
                {
                    &&& #[trigger] replayed_along(
                        old(self).model(),
                        old(self)@,
                        models,
                        failure_of(outcome),
                    )
                    &&& final(self).model() == models.last()
                },
            replayed::<SM>(old(self)@, failure_of(outcome)),
            old(self)@.len() == 0 ==> outcome is Ok,
    {
        restart(&mut self.state_machine);
        let ghost mut models: Seq<SM> = seq![self.state_machine];
        let mut position: usize = 0;
        while position < self.commands.len()
            invariant
                self.commands@ == old(self).commands@,
                self.seed == old(self).seed,
                position <= self.commands@.len(),
                models.len() == position + 1,
                self.state_machine == models.last(),
                reset_to(old(self).model(), models[0]),
                forall|i: int|
                    #![trigger models[i]]
                    0 <= i < models.len() - 1 ==> passed(
                        models[i],
                        self.commands@[i],
                        models[i + 1],
                    ),
            decreases self.commands@.len() - position,
        {
            let ghost model = self.state_machine;
            let ghost command = self.commands@[position as int];
            let answer = ask(system_under_test, &self.commands[position]);
            assert(answered(command, answer));
            let response = match answer {
                Ok(response) => response,
                Err(cause) => {
                    let error = Error::new_system_execution_error(cause.message());
                    assert(reports(error, cause));
                    assert(failed(model, command, error));
                    assert(replayed_along(old(self).model(), old(self)@, models, Some(error)));
                    return Err(error);
                },
            };
            assert(answered(command, Ok::<SM::CommandResult, Error>(response)));
            let verdict = self.state_machine.postcondition(&self.commands[position], &response);
            match verdict {
                Ok(_) => {
                    assert(accepted(model, command, response));
                },
                Err(error) => {
                    assert(rejected(model, command, response, error));
                    assert(failed(model, command, error));
                    assert(replayed_along(old(self).model(), old(self)@, models, Some(error)));
                    return Err(error);
                },
            }
            advance(&mut self.state_machine, &self.commands[position]);
            proof {
                assert(passed(model, command, self.state_machine));
                let ghost before = models;
                models = models.push(self.state_machine);
                assert forall|i: int| #![trigger models[i]] 0 <= i < models.len() - 1 implies passed(
                    models[i],
                    self.commands@[i],
                    models[i + 1],
                ) by {
                    if i < position {
                        assert(models[i] == before[i]);
                        assert(models[i + 1] == before[i + 1]);
                    }
                }
            }
            position += 1;
        }
        assert(replayed_along(old(self).model(), old(self)@, models, None));
        Ok(())
    }
}

} // verus!
