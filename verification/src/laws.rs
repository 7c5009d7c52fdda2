//! What holds of the runner in the long run: which sources the worker
//! executes, in which order their outcomes arrive, and what a shutdown
//! changes.
//!
//! The evaluator is taken as it comes: any function from its own state and a
//! source to its next state and the text of the value, or `None` where the
//! source does not compile or its execution fails. Its state is what one
//! execution leaves behind for the next.

use crate::app::{shown, shown_all};
use crate::js_runner::{outcome_of, text_of, ActionView, MessageView, RunnerView};
use vstd::prelude::*;

verus! {

/// The sources that a worker executes when it receives `commands` in order:
/// those in front of the first `Exit`.
pub open spec fn scripts_before_exit(commands: Seq<MessageView>) -> Seq<Seq<char>>
    decreases commands.len(),
{
    if commands.len() == 0 {
        Seq::empty()
    } else {
        match commands[0] {
            MessageView::Run(code) => seq![code] + scripts_before_exit(commands.drop_first()),
            MessageView::Exit => Seq::empty(),
            _ => scripts_before_exit(commands.drop_first()),
        }
    }
}

/// What an evaluator that starts in `state` makes of `scripts`, executed one
/// after the other: the outcome of each, in their order, and the state in
/// which it ends.
pub open spec fn evaluate_all<E>(
    evaluator: spec_fn(E, Seq<char>) -> (E, Option<Seq<char>>),
    state: E,
    scripts: Seq<Seq<char>>,
) -> (Seq<MessageView>, E)
    decreases scripts.len(),
{
    if scripts.len() == 0 {
        (Seq::empty(), state)
    } else {
        let (next, evaluated) = evaluator(state, scripts[0]);
        let (rest, last) = evaluate_all(evaluator, next, scripts.drop_first());
        (seq![outcome_of(evaluated)] + rest, last)
    }
}

impl RunnerView {
    /// The sources that the worker will still execute: the one in flight,
    /// then those queued in front of the first `Exit`. None once it has left.
    pub open spec fn ahead(self) -> Seq<Seq<char>> {
        if self.exited {
            Seq::empty()
        } else {
            match self.in_flight {
                Some(code) => seq![code] + scripts_before_exit(self.commands),
                None => scripts_before_exit(self.commands),
            }
        }
    }

    /// The runner once its worker has nothing left to do, and the state in
    /// which the evaluator then is. The worker takes its turns one after the
    /// other: it reports the source in flight as soon as the evaluator has
    /// returned, and receives the next command only then. It rests when it has
    /// left its loop or no command is left.
    pub open spec fn settle<E>(
        self,
        evaluator: spec_fn(E, Seq<char>) -> (E, Option<Seq<char>>),
        state: E,
    ) -> (RunnerView, E)
        decreases 2 * self.commands.len() + if self.in_flight is Some { 1nat } else { 0nat },
    {
        if self.exited {
            (self, state)
        } else if let Some(code) = self.in_flight {
            let (next, evaluated) = evaluator(state, code);
            self.complete(evaluated).settle(evaluator, next)
        } else if self.commands.len() == 0 {
            (self, state)
        } else {
            self.next().0.settle(evaluator, state)
        }
    }
}

/// Every step keeps the runner valid, whoever takes it and whatever it is
/// given.
pub proof fn lemma_steps_keep_valid(
    runner: RunnerView,
    code: Seq<char>,
    evaluated: Option<Seq<char>>,
)
    requires
        runner.valid(),
    ensures
        RunnerView::fresh().valid(),
        runner.enqueue(code).valid(),
        runner.stop().valid(),
        runner.next().0.valid(),
        runner.complete(evaluated).valid(),
        runner.peek().0.valid(),
{
}

/// The worker leaves its loop only by receiving `Exit`, and never comes
/// back. A turn makes it leave exactly when it is free and the oldest command
/// is `Exit`; no other step changes whether it has left, and once it has,
/// its turns change nothing.
pub proof fn lemma_worker_leaves_on_exit_only(
    runner: RunnerView,
    code: Seq<char>,
    evaluated: Option<Seq<char>>,
)
    requires
        runner.valid(),
    ensures
        runner.enqueue(code).exited == runner.exited,
        runner.stop().exited == runner.exited,
        runner.complete(evaluated).exited == runner.exited,
        runner.peek().0.exited == runner.exited,
        runner.exited ==> runner.next() == (runner, ActionView::Stop),
        !runner.exited ==> (runner.next().0.exited <==> runner.in_flight is None
            && runner.commands.len() > 0 && runner.commands[0] is Exit),
        runner.next().1 is Stop <==> runner.next().0.exited,
{
}

/// Serial execution in submission order. When the worker has nothing left to
/// do, the results are those that were waiting, followed by the outcome of
/// each source that was ahead, in the order of submission; and the evaluator
/// has executed exactly these sources, one after the other, each from the
/// state that the one before it left. The worker has left its loop if and
/// only if it had left before or an `Exit` was queued; nothing is in flight,
/// and unless the worker has left no command is waiting.
pub proof fn lemma_settle_reports_in_order<E>(
    runner: RunnerView,
    evaluator: spec_fn(E, Seq<char>) -> (E, Option<Seq<char>>),
    state: E,
)
    requires
        runner.valid(),
    ensures
        runner.settle(evaluator, state).0.results == runner.results + evaluate_all(
            evaluator,
            state,
            runner.ahead(),
        ).0,
        runner.settle(evaluator, state).1 == evaluate_all(evaluator, state, runner.ahead()).1,
        runner.settle(evaluator, state).0.in_flight is None,
        runner.settle(evaluator, state).0.exited == (runner.exited || runner.commands.contains(
            MessageView::Exit,
        )),
        runner.settle(evaluator, state).0.exited || runner.settle(
            evaluator,
            state,
        ).0.commands.len() == 0,
        runner.settle(evaluator, state).0.valid(),
    decreases 2 * runner.commands.len() + if runner.in_flight is Some { 1nat } else { 0nat },
{
    if runner.exited {
    } else if let Some(code) = runner.in_flight {
        // The source in flight is reported first; the rest is what is queued.
        let (next, evaluated) = evaluator(state, code);
        lemma_settle_reports_in_order(runner.complete(evaluated), evaluator, next);
        assert(runner.ahead().drop_first() =~= scripts_before_exit(runner.commands));
    } else if runner.commands.len() > 0 {
        // The worker receives the oldest command; the rest follows from there.
        let rest = runner.commands.drop_first();
        lemma_settle_reports_in_order(runner.next().0, evaluator, state);
        if runner.commands[0] is Run && runner.commands.contains(MessageView::Exit) {
            let i = choose|i: int|
                0 <= i < runner.commands.len() && runner.commands[i] == MessageView::Exit;
            assert(rest[i - 1] == MessageView::Exit);
        }
    }
}

/// A source queued behind commands that hold no `Exit` is executed after
/// theirs.
proof fn lemma_scripts_with_one_more(commands: Seq<MessageView>, code: Seq<char>)
    requires
        !commands.contains(MessageView::Exit),
    ensures
        scripts_before_exit(commands.push(MessageView::Run(code))) == scripts_before_exit(
            commands,
        ).push(code),
    decreases commands.len(),
{
    let longer = commands.push(MessageView::Run(code));
    if commands.len() == 0 {
        assert(longer.drop_first() =~= commands);
    } else {
        let rest = commands.drop_first();
        assert(longer.drop_first() =~= rest.push(MessageView::Run(code)));
        lemma_scripts_with_one_more(rest, code);
    }
}

/// What is queued behind an `Exit` is never executed.
proof fn lemma_scripts_behind_exit(commands: Seq<MessageView>, message: MessageView)
    requires
        commands.contains(MessageView::Exit),
    ensures
        scripts_before_exit(commands.push(message)) == scripts_before_exit(commands),
    decreases commands.len(),
{
    let longer = commands.push(message);
    let rest = commands.drop_first();
    assert(longer.drop_first() =~= rest.push(message));
    if commands[0] != MessageView::Exit {
        assert(rest.contains(MessageView::Exit)) by {
            let i = choose|i: int| 0 <= i < commands.len() && commands[i] == MessageView::Exit;
            assert(rest[i - 1] == MessageView::Exit);
        }
        lemma_scripts_behind_exit(rest, message);
    }
}

/// One more source at the end is executed last, from the state that the
/// others left.
proof fn lemma_evaluate_one_more<E>(
    evaluator: spec_fn(E, Seq<char>) -> (E, Option<Seq<char>>),
    state: E,
    scripts: Seq<Seq<char>>,
    code: Seq<char>,
)
    ensures
        evaluate_all(evaluator, state, scripts.push(code)).0 == evaluate_all(
            evaluator,
            state,
            scripts,
        ).0.push(outcome_of(evaluator(evaluate_all(evaluator, state, scripts).1, code).1)),
        evaluate_all(evaluator, state, scripts.push(code)).1 == evaluator(
            evaluate_all(evaluator, state, scripts).1,
            code,
        ).0,
    decreases scripts.len(),
{
    let longer = scripts.push(code);
    if scripts.len() == 0 {
        assert(longer.drop_first() =~= scripts);
        assert(evaluate_all(evaluator, evaluator(state, code).0, scripts).0.len() == 0);
    } else {
        let next = evaluator(state, scripts[0]).0;
        assert(longer.drop_first() =~= scripts.drop_first().push(code));
        lemma_evaluate_one_more(evaluator, next, scripts.drop_first(), code);
    }
}

/// A submission is answered by exactly one outcome, behind all others. On a
/// runner whose worker is in its loop and has not been asked to finish, the
/// submitted source is executed once the sources ahead of it are done, from
/// the state in which they left the evaluator. When the worker has nothing
/// left to do, the results are those that there would have been without the
/// submission, followed by one more: `Output` with the text that the
/// evaluator gave, or `Error` without diagnostic where it gave none.
pub proof fn lemma_submission_adds_one_outcome<E>(
    runner: RunnerView,
    evaluator: spec_fn(E, Seq<char>) -> (E, Option<Seq<char>>),
    state: E,
    code: Seq<char>,
)
    requires
        runner.valid(),
        !runner.exited,
        !runner.commands.contains(MessageView::Exit),
    ensures
        ({
            let (without, reached) = runner.settle(evaluator, state);
            let (with, last) = runner.enqueue(code).settle(evaluator, state);
            let (next, evaluated) = evaluator(reached, code);
            &&& with.results == without.results.push(outcome_of(evaluated))
            &&& last == next
            &&& !with.exited
            &&& with.in_flight is None
        }),
{
    let submitted = runner.enqueue(code);
    lemma_settle_reports_in_order(runner, evaluator, state);
    lemma_settle_reports_in_order(submitted, evaluator, state);
    lemma_scripts_with_one_more(runner.commands, code);
    lemma_evaluate_one_more(evaluator, state, runner.ahead(), code);
}

/// An outcome that arrives last is shown last: polling it appends its text
/// to what the outcomes in front of it have left, if it is a success, and
/// nothing if it is a failure.
pub proof fn lemma_shown_one_more(
    output: Seq<char>,
    results: Seq<MessageView>,
    outcome: MessageView,
)
    ensures
        shown_all(output, results.push(outcome)) == shown(
            shown_all(output, results),
            text_of(Some(outcome)),
        ),
    decreases results.len(),
{
    let longer = results.push(outcome);
    if results.len() == 0 {
        assert(longer.drop_first() =~= results);
        assert(shown_all(shown(output, text_of(Some(outcome))), results) == shown(
            output,
            text_of(Some(outcome)),
        ));
    } else {
        assert(longer.drop_first() =~= results.drop_first().push(outcome));
        lemma_shown_one_more(
            shown(output, text_of(Some(results[0]))),
            results.drop_first(),
            outcome,
        );
    }
}

/// A source that evaluates to a text is answered by exactly one success,
/// with that text. On a runner whose worker is in its loop and has not been
/// asked to finish: once the worker has nothing left to do, the results are
/// those that there would have been without the submission, followed by one
/// `Output` with the text that the evaluator gave for the source. Polled to
/// the end, the output gains exactly that text as one line. Where nothing
/// else waits to be polled, the next poll returns the text, and no result is
/// left for the poll after it.
pub proof fn lemma_success_is_polled_once<E>(
    runner: RunnerView,
    evaluator: spec_fn(E, Seq<char>) -> (E, Option<Seq<char>>),
    state: E,
    code: Seq<char>,
    text: Seq<char>,
    output: Seq<char>,
)
    requires
        runner.valid(),
        !runner.exited,
        !runner.commands.contains(MessageView::Exit),
        evaluator(runner.settle(evaluator, state).1, code).1 == Some(text),
    ensures
        ({
            let without = runner.settle(evaluator, state).0;
            let with = runner.enqueue(code).settle(evaluator, state).0;
            &&& with.results == without.results.push(MessageView::Output(text))
            &&& shown_all(output, with.results) == shown_all(output, without.results) + text
                + seq!['\n']
            &&& without.results.len() == 0 ==> {
                &&& with.peek().1 == Some(text)
                &&& with.peek().0.results.len() == 0
                &&& with.peek().0.peek().1 is None
            }
        }),
{
    lemma_submission_adds_one_outcome(runner, evaluator, state, code);
    let without = runner.settle(evaluator, state).0;
    lemma_shown_one_more(output, without.results, MessageView::Output(text));
}

/// A source that fails shows nothing. Where the source does not compile or
/// its execution fails, the output, polled to the end, is what it would have
/// been without the submission. On a runner whose worker is in its loop and
/// has not been asked to finish, the one outcome that answers the submission
/// is an `Error` without diagnostic, and polling it returns no text; on any
/// other the source is never executed and nothing answers it.
pub proof fn lemma_failure_shows_nothing<E>(
    runner: RunnerView,
    evaluator: spec_fn(E, Seq<char>) -> (E, Option<Seq<char>>),
    state: E,
    code: Seq<char>,
    output: Seq<char>,
)
    requires
        runner.valid(),
        evaluator(runner.settle(evaluator, state).1, code).1 is None,
    ensures
        ({
            let without = runner.settle(evaluator, state).0;
            let with = runner.enqueue(code).settle(evaluator, state).0;
            &&& shown_all(output, with.results) == shown_all(output, without.results)
            &&& if !runner.exited && !runner.commands.contains(MessageView::Exit) {
                with.results == without.results.push(MessageView::Error(Seq::empty()))
            } else {
                with.results == without.results
            }
            &&& without.results.len() == 0 ==> {
                &&& with.peek().1 is None
                &&& with.peek().0.results.len() == 0
            }
        }),
{
    let without = runner.settle(evaluator, state).0;
    if !runner.exited && !runner.commands.contains(MessageView::Exit) {
        lemma_submission_adds_one_outcome(runner, evaluator, state, code);
        lemma_shown_one_more(output, without.results, MessageView::Error(Seq::empty()));
    } else {
        // The source is queued behind an `Exit`, or for a worker that has left.
        lemma_settle_reports_in_order(runner, evaluator, state);
        lemma_settle_reports_in_order(runner.enqueue(code), evaluator, state);
        if !runner.exited {
            lemma_scripts_behind_exit(runner.commands, MessageView::Run(code));
        }
    }
}

/// First in, first out. Of two sources submitted one after the other, the
/// first is executed first and the second from the state that the first
/// left, and their outcomes arrive in that order behind all others. Where
/// nothing else waits to be polled, the first poll takes the outcome of the
/// first source and the second poll that of the second.
pub proof fn lemma_results_in_submission_order<E>(
    runner: RunnerView,
    evaluator: spec_fn(E, Seq<char>) -> (E, Option<Seq<char>>),
    state: E,
    first: Seq<char>,
    second: Seq<char>,
)
    requires
        runner.valid(),
        !runner.exited,
        !runner.commands.contains(MessageView::Exit),
    ensures
        ({
            let (without, reached) = runner.settle(evaluator, state);
            let (with, last) = runner.enqueue(first).enqueue(second).settle(evaluator, state);
            let (between, first_evaluated) = evaluator(reached, first);
            let (after, second_evaluated) = evaluator(between, second);
            &&& with.results == without.results.push(outcome_of(first_evaluated)).push(
                outcome_of(second_evaluated),
            )
            &&& last == after
            &&& without.results.len() == 0 ==> {
                &&& with.peek().1 == first_evaluated
                &&& with.peek().0.peek().1 == second_evaluated
                &&& with.peek().0.peek().0.results.len() == 0
            }
        }),
{
    lemma_submission_adds_one_outcome(runner, evaluator, state, first);
    lemma_submission_adds_one_outcome(runner.enqueue(first), evaluator, state, second);
}

/// At most one source is in flight. While the worker executes a source its
/// turns start nothing and receive nothing, whatever the controlling side
/// submits, polls or asks meanwhile: a source submitted now waits in the
/// queue. The first source stays in flight until the worker reports it, and
/// only the turn after that receives the next command; where none was
/// waiting, that is the source submitted meanwhile.
pub proof fn lemma_nothing_starts_while_in_flight(
    runner: RunnerView,
    code: Seq<char>,
    evaluated: Option<Seq<char>>,
)
    requires
        runner.valid(),
        runner.in_flight is Some,
    ensures
        runner.next() == (runner, ActionView::Wait),
        runner.enqueue(code).in_flight == runner.in_flight,
        runner.enqueue(code).next() == (runner.enqueue(code), ActionView::Wait),
        runner.stop().in_flight == runner.in_flight,
        runner.stop().next() == (runner.stop(), ActionView::Wait),
        runner.peek().0.in_flight == runner.in_flight,
        runner.peek().0.next() == (runner.peek().0, ActionView::Wait),
        runner.complete(evaluated).in_flight is None,
        runner.enqueue(code).complete(evaluated).results == runner.results.push(
            outcome_of(evaluated),
        ),
        runner.commands.len() == 0 ==> {
            &&& runner.enqueue(code).complete(evaluated).next().1 == ActionView::Evaluate(code)
            &&& runner.enqueue(code).complete(evaluated).next().0.in_flight == Some(code)
        },
{
}

/// Asking twice is asking once. Whether the controlling side asks the worker
/// to finish once or twice, the worker executes the same sources, reports
/// the same outcomes, leaves its loop, and then stays out of it whatever is
/// queued: the second `Exit` is never received.
pub proof fn lemma_stop_twice<E>(
    runner: RunnerView,
    evaluator: spec_fn(E, Seq<char>) -> (E, Option<Seq<char>>),
    state: E,
)
    requires
        runner.valid(),
    ensures
        ({
            let (once, reached) = runner.stop().settle(evaluator, state);
            let (twice, last) = runner.stop().stop().settle(evaluator, state);
            &&& twice.results == once.results
            &&& last == reached
            &&& once.exited && twice.exited
            &&& once.in_flight is None && twice.in_flight is None
            &&& twice.next() == (twice, ActionView::Stop)
            &&& twice.stop().next() == (twice.stop(), ActionView::Stop)
        }),
{
    let once = runner.stop();
    let twice = once.stop();
    assert(once.commands.last() == MessageView::Exit);
    assert(twice.commands.last() == MessageView::Exit);
    lemma_settle_reports_in_order(once, evaluator, state);
    lemma_settle_reports_in_order(twice, evaluator, state);
    lemma_scripts_behind_exit(once.commands, MessageView::Exit);
}

} // verus!
