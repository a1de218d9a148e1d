//! Running a test plan: trials, and the minimisation of a failing one.
//!
//! While a failing sequence is minimised, a candidate counts as failing
//! whenever its replay ends in an error, whichever error that is. The
//! sequence that is reported can therefore fail for another reason than
//! the sequence that was generated; the error that is reported is always
//! the one that the reported sequence ended in.
//!
//! What a plan comes to is decided by the model, the strategies and the
//! system. The contracts here say what was done with their answers: they
//! speak of the trials that were made and of the rounds of each search,
//! and of each of them they say what was generated, what was replayed and
//! which step came next.

use crate::config::Config;
use crate::errors::Error;
use crate::random::{fresh_seed, make_runner, seeded_runner};
use crate::sequence::{failure_of, replayed, CommandSequence};
use crate::shrink::{lemma_count_all_included, Shrink};
use crate::strategy::{
    built, command_sequence, not_built, CommandSequenceStrategy, CommandSequenceStrategyView,
};
use crate::traits::{StateMachine, SystemUnderTest};
use crate::tree::{lemma_exhaustion_is_final, CommandSequenceValueTree, CommandSequenceView};
use proptest::test_runner::TestRunner;
use vstd::prelude::*;

verus! {

/// How a test plan failed.
#[derive(Debug)]
pub enum TestError<T> {
    /// No sequence could be generated; nothing was run against the system.
    Abort(Error),
    /// A sequence failed. The error is that of the smallest failing
    /// sequence that was found, which comes with it.
    Fail(Error, T),
}

/// One round of a search, as a mathematical value: where the search stood,
/// the commands that its candidate stood for, and what their replay came
/// to.
#[verifier::reject_recursive_types(C)]
pub struct Round<C> {
    /// The search as it stood when its candidate was taken.
    pub state: CommandSequenceView<C>,
    /// The commands of the candidate.
    pub candidate: Seq<C>,
    /// The error that the replay ended in, if it ended in one.
    pub failure: Option<Error>,
}

/// How a trial ended, as a mathematical value.
#[verifier::reject_recursive_types(C)]
pub enum Verdict<C> {
    /// The generated sequence was replayed and nothing failed.
    Passed,
    /// No sequence could be generated.
    Aborted(Error),
    /// A sequence failed; these are the commands and the error of the
    /// smallest failing sequence found.
    Failed(Error, Seq<C>),
}

/// Whether the candidate that stands after a step was taken back still
/// has to be replayed. A command that was put back gives the sequence that
/// was last seen to fail, which needs no second look. An element that took
/// back part of its last step stands for a command that was never tried.
pub fn stands_untried(undone: Option<Shrink>, complicated: bool) -> (untried: bool)
    ensures
        untried == (complicated && undone matches Some(Shrink::ShrinkCommand(_))),
{
    match undone {
        Some(Shrink::ShrinkCommand(_)) => complicated,
        _ => false,
    }
}

/// Whether `round` is a round that was played: its candidate is what the
/// search stood for, and its failure is what the replay of the candidate
/// came to.
pub open spec fn played<SM: StateMachine>(round: Round<SM::Command>) -> bool {
    &&& round.state.wf()
    &&& round.state.yields(round.candidate)
    &&& replayed::<SM>(round.candidate, round.failure)
}

/// Whether the search went on from `round` to `next` as it has to, where
/// `stands` tells whether a candidate stands in `next`. After a candidate
/// that failed the search is asked to simplify. After one that passed the
/// step is taken back; if that was the step of an element and the element
/// moved, the candidate that stands then is the next, and otherwise the
/// search is asked to simplify.
pub open spec fn moved_on<C: std::fmt::Debug>(
    round: Round<C>,
    next: CommandSequenceView<C>,
    stands: bool,
) -> bool {
    match round.failure {
        Some(_) => round.state.simplifies_to(next, stands),
        None => exists|taken_back: CommandSequenceView<C>, complicated: bool|
            {
                &&& #[trigger] round.state.complicates_to(taken_back, complicated)
                &&& if complicated && round.state.state.prev_shrink matches Some(
                    Shrink::ShrinkCommand(_),
                ) {
                    next == taken_back && stands
                } else {
                    taken_back.simplifies_to(next, stands)
                }
            },
    }
}

/// Whether `rounds` are the rounds of a search that started at `start` and
/// stands at `end`, where `stands` tells whether a candidate stands there.
/// The search is asked to simplify once, each candidate that stands is
/// played, and after each round the search goes on as it has to.
pub open spec fn searched<SM: StateMachine>(
    start: CommandSequenceView<SM::Command>,
    rounds: Seq<Round<SM::Command>>,
    end: CommandSequenceView<SM::Command>,
    stands: bool,
) -> bool {
    &&& forall|i: int| 0 <= i < rounds.len() ==> played::<SM>(#[trigger] rounds[i])
    &&& if rounds.len() == 0 {
        start.simplifies_to(end, stands)
    } else {
        &&& start.simplifies_to(rounds[0].state, true)
        &&& forall|i: int|
            #![trigger rounds[i]]
            0 <= i < rounds.len() - 1 ==> moved_on(rounds[i], rounds[i + 1].state, true)
        &&& moved_on(rounds.last(), end, stands)
    }
}

/// The smallest failing sequence known after `rounds`, behind its error:
/// that of the latest round that failed, or the sequence that the search
/// started from if none did.
pub open spec fn best<C>(rounds: Seq<Round<C>>, failure: Error, failing: Seq<C>) -> (Error, Seq<C>)
    decreases rounds.len(),
{
    if rounds.len() == 0 {
        (failure, failing)
    } else {
        match rounds.last().failure {
            Some(error) => (error, rounds.last().candidate),
            None => best(rounds.drop_last(), failure, failing),
        }
    }
}

/// Whether `minimal` is what minimising came to, in `rounds` rounds that
/// led the search from `start` to `end`. Without a budget nothing is done.
/// Otherwise the search is played round by round until no candidate stands
/// or the budget of `max_shrink_iters` rounds is spent, and what is
/// reported is the latest candidate that failed.
pub open spec fn minimized<SM: StateMachine>(
    start: CommandSequenceView<SM::Command>,
    failure: Error,
    failing: Seq<SM::Command>,
    max_shrink_iters: u32,
    rounds: Seq<Round<SM::Command>>,
    end: CommandSequenceView<SM::Command>,
    minimal: (Error, Seq<SM::Command>),
) -> bool {
    &&& rounds.len() <= max_shrink_iters
    &&& minimal == best(rounds, failure, failing)
    &&& if max_shrink_iters == 0 {
        end == start
    } else {
        exists|stands: bool| #[trigger]
            searched::<SM>(start, rounds, end, stands) && (stands ==> rounds.len()
                == max_shrink_iters)
    }
}

/// A search that was played for some rounds and stands at a candidate is,
/// once that candidate is played and the search has gone on, a search that
/// was played for one round more.
proof fn lemma_one_more_round<SM: StateMachine>(
    start: CommandSequenceView<SM::Command>,
    rounds: Seq<Round<SM::Command>>,
    round: Round<SM::Command>,
    next: CommandSequenceView<SM::Command>,
    stands: bool,
)
    requires
        searched::<SM>(start, rounds, round.state, true),
        played::<SM>(round),
        moved_on(round, next, stands),
    ensures
        searched::<SM>(start, rounds.push(round), next, stands),
{
    let longer = rounds.push(round);
    assert forall|i: int| 0 <= i < longer.len() implies played::<SM>(#[trigger] longer[i]) by {
        if i < rounds.len() {
            assert(longer[i] == rounds[i]);
        }
    }
    assert forall|i: int| #![trigger longer[i]] 0 <= i < longer.len() - 1 implies moved_on(
        longer[i],
        longer[i + 1].state,
        true,
    ) by {
        assert(longer[i] == rounds[i]);
        if i < rounds.len() - 1 {
            assert(longer[i + 1] == rounds[i + 1]);
        } else {
            assert(longer[i] == rounds.last());
        }
    }
    if rounds.len() > 0 {
        assert(longer[0] == rounds[0]);
    }
}

/// Searches for a smaller sequence that still fails. `failing` is the
/// sequence that `case` generated, `failure` the error it ended in. Each
/// round replays the candidate that the search stands at against a fresh
/// system. A candidate that fails, with whatever error, becomes the
/// smallest failing sequence known, and the search is asked to simplify
/// further. For one that passes the step is taken back; where that leaves
/// a candidate that was never tried, it is replayed next, otherwise the
/// search is asked for its next step. The search goes on until it is
/// exhausted or `max_shrink_iters` candidates have been replayed. Returns
/// the smallest failing sequence known at that point, behind the error it
/// ended in, and the number of candidates that were replayed.
pub fn minimize<SM, SUTF>(
    case: &mut CommandSequenceValueTree<SM>,
    failure: Error,
    failing: CommandSequence<SM>,
    max_shrink_iters: u32,
    system_under_test_factory: &SUTF,
) -> (minimal: (Error, CommandSequence<SM>, u32)) where
    SM: StateMachine + Clone,
    SUTF: Fn() -> Box<dyn SystemUnderTest<SM::Command, SM::CommandResult>>,

    requires
        old(case)@.wf(),
        failing@.len() <= old(case)@.len(),
        call_requires(*system_under_test_factory, ()),
    ensures
        final(case)@.wf(),
        final(case)@.len() == old(case)@.len(),
        final(case).model() == old(case).model(),
        exists|rounds: Seq<Round<SM::Command>>|
            {
                &&& rounds.len() == minimal.2
                &&& #[trigger] minimized::<SM>(
                    old(case)@,
                    failure,
                    failing@,
                    max_shrink_iters,
                    rounds,
                    final(case)@,
                    (minimal.0, minimal.1@),
                )
            },
        max_shrink_iters > 0 && old(case)@.state.can_delete() ==> minimal.2 >= 1,
        minimal.1@.len() <= old(case)@.len(),
        failing@.len() >= 1 ==> minimal.1@.len() >= 1,
        minimal.2 <= max_shrink_iters,
        minimal.2 == max_shrink_iters || final(case)@.state.exhausted(),
        minimal.2 == 0 ==> minimal.0 == failure && minimal.1 == failing,
        max_shrink_iters == 0 ==> final(case)@ == old(case)@,
        replayed::<SM>(failing@, Some(failure)) ==> replayed::<SM>(minimal.1@, Some(minimal.0)),
{
    if max_shrink_iters == 0 {
        assert(minimized::<SM>(
            old(case)@,
            failure,
            failing@,
            max_shrink_iters,
            Seq::empty(),
            case@,
            (failure, failing@),
        ));
        return (failure, failing, 0);
    }
    let mut minimal = (failure, failing);
    let mut replays: u32 = 0;
    let ghost mut rounds: Seq<Round<SM::Command>> = Seq::empty();
    let ghost mut before = case@;
    let mut candidate_stands = case.simplify();
    proof {
        lemma_exhaustion_is_final(before, case@, candidate_stands);
    }
    while candidate_stands && replays < max_shrink_iters
        invariant
            case@.wf(),
            case@.len() == old(case)@.len(),
            case.model() == old(case).model(),
            call_requires(*system_under_test_factory, ()),
            minimal.1@.len() <= case@.len(),
            failing@.len() <= case@.len(),
            failing@.len() >= 1 ==> minimal.1@.len() >= 1,
            replays <= max_shrink_iters,
            !candidate_stands ==> case@.state.exhausted(),
            replays == 0 ==> minimal == (failure, failing),
            replayed::<SM>(failing@, Some(failure)) ==> replayed::<SM>(minimal.1@, Some(minimal.0)),
            rounds.len() == replays,
            searched::<SM>(old(case)@, rounds, case@, candidate_stands),
            (minimal.0, minimal.1@) == best(rounds, failure, failing@),
            old(case)@.state.can_delete() ==> candidate_stands || replays >= 1,
        decreases max_shrink_iters - replays,
    {
        replays += 1;
        let mut candidate = case.current();
        let mut system_under_test = system_under_test_factory();
        let outcome = candidate.run(&mut system_under_test);
        let ghost round = Round {
            state: case@,
            candidate: candidate@,
            failure: failure_of(outcome),
        };
        let ghost earlier = rounds;
        match outcome {
            Err(error) => {
                assert(replayed::<SM>(candidate@, Some(error)));
                minimal = (error, candidate);
                proof {
                    before = case@;
                }
                candidate_stands = case.simplify();
                proof {
                    lemma_exhaustion_is_final(before, case@, candidate_stands);
                    assert(moved_on(round, case@, candidate_stands));
                }
            },
            Ok(_) => {
                let undone = case.prev_shrink();
                let complicated = case.complicate();
                let ghost taken_back = case@;
                if stands_untried(undone, complicated) {
                    candidate_stands = true;
                } else {
                    proof {
                        before = case@;
                    }
                    candidate_stands = case.simplify();
                    proof {
                        lemma_exhaustion_is_final(before, case@, candidate_stands);
                    }
                }
                proof {
                    assert(round.state.complicates_to(taken_back, complicated));
                    assert(moved_on(round, case@, candidate_stands));
                }
            },
        }
        proof {
            lemma_one_more_round::<SM>(old(case)@, earlier, round, case@, candidate_stands);
            rounds = earlier.push(round);
            assert(rounds.drop_last() =~= earlier);
        }
    }
    proof {
        assert(minimized::<SM>(
            old(case)@,
            failure,
            failing@,
            max_shrink_iters,
            rounds,
            case@,
            (minimal.0, minimal.1@),
        ));
    }
    (minimal.0, minimal.1, replays)
}

/// The builder's settings that a plan's configuration asks for.
pub open spec fn strategy_of(config: Config) -> CommandSequenceStrategyView {
    CommandSequenceStrategyView {
        min_size: config.min_sequence_size,
        max_size: config.max_sequence_size,
        shrink_commands: config.shrink_commands,
    }
}

/// Whether `runner` is a runner made as `config` asks, starting from
/// `seed`: the seed is that of the configuration where it has one.
pub open spec fn made_for(config: Config, seed: [u8; 32], runner: TestRunner) -> bool {
    &&& config.seed matches Some(configured) ==> seed == configured
    &&& seeded_runner(config.cases, config.max_shrink_iters, seed, runner)
}

/// How a trial ended, as the caller sees it.
pub open spec fn verdict_of<SM: StateMachine>(
    outcome: Result<(), TestError<CommandSequence<SM>>>,
) -> Verdict<SM::Command> {
    match outcome {
        Ok(_) => Verdict::Passed,
        Err(TestError::Abort(error)) => Verdict::Aborted(error),
        Err(TestError::Fail(error, sequence)) => Verdict::Failed(error, sequence@),
    }
}

/// Whether `verdict` is how a trial ended that was made with a builder set
/// up as `strategy` for the model `model`, a runner that stood at `runner`
/// and a budget of `max_shrink_iters` rounds. A trial is aborted where no
/// sequence was built. Where one was built, its candidate is replayed: the
/// trial passes if that was in order, and otherwise what is reported is
/// what minimising came to, from the sequence that was built and the error
/// that its replay ended in.
pub open spec fn tried<SM: StateMachine + Clone>(
    strategy: CommandSequenceStrategyView,
    model: SM,
    runner: TestRunner,
    max_shrink_iters: u32,
    verdict: Verdict<SM::Command>,
) -> bool {
    match verdict {
        Verdict::Aborted(error) => not_built(strategy, model, runner, error),
        Verdict::Passed => exists|
            tree: CommandSequenceView<SM::Command>,
            paired: SM,
            commands: Seq<SM::Command>,
        |
            {
                &&& #[trigger] built(strategy, model, runner, tree, paired)
                &&& tree.wf()
                &&& #[trigger] tree.yields(commands)
                &&& replayed::<SM>(commands, None)
            },
        Verdict::Failed(error, reported) => exists|
            tree: CommandSequenceView<SM::Command>,
            paired: SM,
            commands: Seq<SM::Command>,
            failure: Error,
            rounds: Seq<Round<SM::Command>>,
            end: CommandSequenceView<SM::Command>,
        |
            {
                &&& #[trigger] built(strategy, model, runner, tree, paired)
                &&& tree.wf()
                &&& tree.yields(commands)
                &&& replayed::<SM>(commands, Some(failure))
                &&& #[trigger] minimized::<SM>(
                    tree,
                    failure,
                    commands,
                    max_shrink_iters,
                    rounds,
                    end,
                    (error, reported),
                )
            },
    }
}

/// One trial: generates a sequence and replays it against a fresh system.
/// A sequence that fails is minimised before it is reported. The trial
/// passes when the replay of the generated sequence is in order. It is
/// aborted when no sequence could be generated. Otherwise it fails, with a
/// sequence whose replay ended in the error that comes with it.
pub fn run_trial<SM, SUTF>(
    strategy: &CommandSequenceStrategy<SM>,
    runner: &mut TestRunner,
    max_shrink_iters: u32,
    system_under_test_factory: &SUTF,
) -> (outcome: Result<(), TestError<CommandSequence<SM>>>) where
    SM: StateMachine + Clone,
    SUTF: Fn() -> Box<dyn SystemUnderTest<SM::Command, SM::CommandResult>>,

    requires
        strategy@.min_size <= strategy@.max_size,
        call_requires(*system_under_test_factory, ()),
    ensures
        tried(strategy@, strategy.model(), *old(runner), max_shrink_iters, verdict_of(outcome)),
        strategy@.max_size == 0 ==> outcome is Ok,
        outcome matches Err(TestError::Abort(e)) ==> e is Generation,
        outcome matches Err(TestError::Fail(error, sequence)) ==> {
            &&& replayed::<SM>(sequence@, Some(error))
            &&& sequence@.len() <= strategy@.max_size
            &&& strategy@.min_size > 0 ==> sequence@.len() >= 1
        },
{
    let mut case = match strategy.new_tree(runner) {
        Ok(case) => case,
        Err(error) => {
            return Err(TestError::Abort(error));
        },
    };
    let ghost tree = case@;
    let ghost paired = case.model();
    let mut sequence = case.current();
    let ghost commands = sequence@;
    proof {
        lemma_count_all_included(case@.state.included);
    }
    let mut system_under_test = system_under_test_factory();
    let replay = sequence.run(&mut system_under_test);
    match replay {
        Ok(_) => {
            assert(built(strategy@, strategy.model(), *old(runner), tree, paired));
            assert(tree.yields(commands));
            Ok(())
        },
        Err(failure) => {
            assert(replayed::<SM>(commands, Some(failure)));
            let (error, sequence, _) = minimize(
                &mut case,
                failure,
                sequence,
                max_shrink_iters,
                system_under_test_factory,
            );
            proof {
                let rounds = choose|rounds: Seq<Round<SM::Command>>| #[trigger]
                    minimized::<SM>(
                        tree,
                        failure,
                        commands,
                        max_shrink_iters,
                        rounds,
                        case@,
                        (error, sequence@),
                    );
                assert(built(strategy@, strategy.model(), *old(runner), tree, paired));
                assert(minimized::<SM>(
                    tree,
                    failure,
                    commands,
                    max_shrink_iters,
                    rounds,
                    case@,
                    (error, sequence@),
                ));
            }
            Err(TestError::Fail(error, sequence))
        },
    }
}

/// Whether `trials` are the trials of a plan run as `config` asks for the
/// model `model`, from the seed `seed`, each with the runner standing as
/// `runners` tells: the first runner is made as the configuration asks,
/// every trial is made with the builder and the budget that it asks for,
/// and every trial but the last has passed.
pub open spec fn planned<SM: StateMachine + Clone>(
    config: Config,
    model: SM,
    seed: [u8; 32],
    trials: Seq<Verdict<SM::Command>>,
    runners: Seq<TestRunner>,
) -> bool {
    &&& trials.len() <= config.cases
    &&& runners.len() == trials.len()
    &&& trials.len() > 0 ==> made_for(config, seed, runners[0])
    &&& forall|t: int|
        0 <= t < trials.len() ==> tried(
            strategy_of(config),
            model,
            runners[t],
            config.max_shrink_iters,
            #[trigger] trials[t],
        )
    &&& forall|t: int| 0 <= t < trials.len() - 1 ==> (#[trigger] trials[t]) is Passed
}

/// Runs a test plan: `config.cases` trials, each on a sequence of its own
/// and a system of its own from `system_under_test_factory`. The plan
/// passes when every trial passes. The first trial that fails ends the plan
/// with the smallest failing sequence that the search found and the error
/// of that sequence; a sequence that cannot be generated ends it as well.
/// The sequence that is reported carries the seed that the plan started
/// from: that of the configuration, or a fresh one where it has none.
pub fn execute_plan<SM, SUTF>(
    config: Config,
    state_machine: SM,
    system_under_test_factory: SUTF,
) -> (outcome: Result<(), TestError<CommandSequence<SM>>>) where
    SM: StateMachine + Clone,
    SUTF: Fn() -> Box<dyn SystemUnderTest<SM::Command, SM::CommandResult>>,

    requires
        config.min_sequence_size <= config.max_sequence_size,
        call_requires(system_under_test_factory, ()),
    ensures
        exists|seed: [u8; 32], trials: Seq<Verdict<SM::Command>>, runners: Seq<TestRunner>|
            {
                &&& #[trigger] planned(config, state_machine, seed, trials, runners)
                &&& match outcome {
                    Ok(_) => trials.len() == config.cases && forall|t: int|
                        0 <= t < trials.len() ==> (#[trigger] trials[t]) is Passed,
                    Err(_) => trials.len() >= 1 && trials.last() == verdict_of(outcome),
                }
                &&& outcome matches Err(TestError::Fail(_, sequence)) ==> sequence.spec_seed()
                    == Some(seed)
            },
        config.cases == 0 || config.max_sequence_size == 0 ==> outcome is Ok,
        outcome matches Err(TestError::Abort(e)) ==> e is Generation,
        outcome matches Err(TestError::Fail(error, sequence)) ==> {
            &&& replayed::<SM>(sequence@, Some(error))
            &&& sequence@.len() <= config.max_sequence_size
            &&& config.min_sequence_size > 0 ==> sequence@.len() >= 1
        },
{
    let seed = match config.seed {
        Some(seed) => seed,
        None => fresh_seed(),
    };
    let mut runner = make_runner(config.cases, config.max_shrink_iters, &seed);
    let strategy = command_sequence(
        config.min_sequence_size,
        config.max_sequence_size,
        state_machine,
    ).shrink_commands(config.shrink_commands);
    let mut successes: u32 = 0;
    let ghost mut trials: Seq<Verdict<SM::Command>> = Seq::empty();
    let ghost mut runners: Seq<TestRunner> = Seq::empty();
    while successes < config.cases
        invariant
            strategy@ == strategy_of(config),
            strategy.model() == state_machine,
            config.min_sequence_size <= config.max_sequence_size,
            call_requires(system_under_test_factory, ()),
            successes <= config.cases,
            trials.len() == successes,
            successes == 0 ==> made_for(config, seed, runner),
            planned(config, state_machine, seed, trials, runners),
            forall|t: int| 0 <= t < trials.len() ==> (#[trigger] trials[t]) is Passed,
        decreases config.cases - successes,
    {
        let ghost standing = runner;
        let ghost earlier = trials;
        let ghost earlier_runners = runners;
        let trial = run_trial(
            &strategy,
            &mut runner,
            config.max_shrink_iters,
            &system_under_test_factory,
        );
        proof {
            trials = earlier.push(verdict_of(trial));
            runners = earlier_runners.push(standing);
            assert forall|t: int| 0 <= t < trials.len() implies tried(
                strategy_of(config),
                state_machine,
                runners[t],
                config.max_shrink_iters,
                #[trigger] trials[t],
            ) by {
                if t < earlier.len() {
                    assert(trials[t] == earlier[t]);
                    assert(runners[t] == earlier_runners[t]);
                }
            }
            assert forall|t: int| 0 <= t < trials.len() - 1 implies (#[trigger] trials[t])
                is Passed by {
                assert(trials[t] == earlier[t]);
            }
            if earlier.len() > 0 {
                assert(runners[0] == earlier_runners[0]);
            }
            assert(planned(config, state_machine, seed, trials, runners));
        }
        match trial {
            Ok(_) => {
                successes += 1;
            },
            Err(TestError::Abort(error)) => {
                return Err(TestError::Abort(error));
            },
            Err(TestError::Fail(error, sequence)) => {
                return Err(TestError::Fail(error, sequence.with_seed(seed)));
            },
        }
    }
    Ok(())
}

} // verus!
