//! The runner: its messages, the decisions of its worker, and the queues
//! through which the controlling side and the worker talk.

use std::collections::VecDeque;
use vstd::prelude::*;

verus! {

/// What travels between the controlling side and the worker.
///
/// `Run` and `Exit` are commands, sent to the worker; `Output` and `Error`
/// are outcomes, sent back by it.
#[derive(Debug, PartialEq, Eq)]
pub enum Message {
    /// Execute this source.
    Run(String),
    /// The execution failed. The text is a diagnostic; it is empty when the
    /// evaluator has reported the failure on a channel of its own.
    Error(String),
    /// The execution succeeded and its value reads as this text.
    Output(String),
    /// Finish: the worker reads no further command.
    Exit,
}

/// A [`Message`] as a mathematical value.
pub enum MessageView {
    Run(Seq<char>),
    Error(Seq<char>),
    Output(Seq<char>),
    Exit,
}

impl View for Message {
    type V = MessageView;

    open spec fn view(&self) -> MessageView {
        match self {
            Message::Run(code) => MessageView::Run(code@),
            Message::Error(diagnostic) => MessageView::Error(diagnostic@),
            Message::Output(text) => MessageView::Output(text@),
            Message::Exit => MessageView::Exit,
        }
    }
}

impl DeepView for Message {
    type V = MessageView;

    open spec fn deep_view(&self) -> MessageView {
        self@
    }
}

impl MessageView {
    /// A message that the controlling side sends.
    pub open spec fn is_command(self) -> bool {
        self is Run || self is Exit
    }

    /// A message that the worker sends: a success with its text, or a
    /// failure without diagnostic.
    pub open spec fn is_report(self) -> bool {
        self is Output || self == MessageView::Error(Seq::empty())
    }
}

/// Every message is a command.
pub open spec fn only_commands(messages: Seq<MessageView>) -> bool {
    forall|i: int| 0 <= i < messages.len() ==> (#[trigger] messages[i]).is_command()
}

/// Every message is one that the worker sends.
pub open spec fn only_reports(messages: Seq<MessageView>) -> bool {
    forall|i: int| 0 <= i < messages.len() ==> (#[trigger] messages[i]).is_report()
}

/// What the worker does after a receive.
#[derive(Debug, PartialEq, Eq)]
pub enum Action {
    /// Execute this source, then report the outcome.
    Evaluate(String),
    /// Nothing to execute: go on receiving.
    Wait,
    /// Leave the loop.
    Stop,
}

/// An [`Action`] as a mathematical value.
pub enum ActionView {
    Evaluate(Seq<char>),
    Wait,
    Stop,
}

impl View for Action {
    type V = ActionView;

    open spec fn view(&self) -> ActionView {
        match self {
            Action::Evaluate(code) => ActionView::Evaluate(code@),
            Action::Wait => ActionView::Wait,
            Action::Stop => ActionView::Stop,
        }
    }
}

/// The worker's decision on what a receive returned: a command, or `None`
/// when the sending side is gone.
pub open spec fn decision(received: Option<MessageView>) -> ActionView {
    match received {
        Some(MessageView::Run(code)) => ActionView::Evaluate(code),
        Some(MessageView::Exit) => ActionView::Stop,
        Some(_) => ActionView::Wait,
        None => ActionView::Stop,
    }
}

/// The message that reports an execution: its text, or a failure without
/// diagnostic when there is none.
pub open spec fn outcome_of(evaluated: Option<Seq<char>>) -> MessageView {
    match evaluated {
        Some(text) => MessageView::Output(text),
        None => MessageView::Error(Seq::empty()),
    }
}

/// The text that a poll hands on: that of a success, and nothing else.
pub open spec fn text_of(received: Option<MessageView>) -> Option<Seq<char>> {
    match received {
        Some(MessageView::Output(text)) => Some(text),
        _ => None,
    }
}

/// Decides what the worker does with what it received. A source is executed,
/// `Exit` ends the loop, and so does a failed receive (`None`): with the
/// sending side gone no command can follow. An outcome that strays into the
/// command channel is ignored.
pub fn on_receive(received: Option<Message>) -> (action: Action)
    ensures
        action@ == decision(received.deep_view()),
{
    match received {
        Some(Message::Run(code)) => Action::Evaluate(code),
        Some(Message::Exit) => Action::Stop,
        Some(_) => Action::Wait,
        None => Action::Stop,
    }
}

/// Wraps what the evaluator returned into the message for the controlling
/// side: `Output` with the text, or `Error` with an empty diagnostic.
pub fn outcome(evaluated: Option<String>) -> (message: Message)
    ensures
        message@ == outcome_of(evaluated.deep_view()),
{
    match evaluated {
        Some(text) => Message::Output(text),
        None => Message::Error(String::new()),
    }
}

/// Picks from a received message what a poll returns: the text of an
/// `Output`. A failure, like no message at all, gives `None`.
pub fn successful_text(received: Option<Message>) -> (text: Option<String>)
    ensures
        text.deep_view() == text_of(received.deep_view()),
{
    match received {
        Some(Message::Output(text)) => Some(text),
        _ => None,
    }
}

/// The runner as a mathematical value: what has been sent and not yet
/// received in each direction, and what the worker is doing.
pub struct RunnerView {
    /// The commands that the worker has not received yet, oldest first.
    pub commands: Seq<MessageView>,
    /// The outcomes that no poll has taken yet, oldest first.
    pub results: Seq<MessageView>,
    /// The source that the worker is executing, if any.
    pub in_flight: Option<Seq<char>>,
    /// The worker has left its loop.
    pub exited: bool,
}

impl RunnerView {
    /// A runner that has just been started: nothing sent, nothing in flight.
    pub open spec fn fresh() -> RunnerView {
        RunnerView {
            commands: Seq::empty(),
            results: Seq::empty(),
            in_flight: None,
            exited: false,
        }
    }

    /// Each queue holds only what its sender sends, a failure carries no
    /// diagnostic, and a worker that has left executes nothing.
    pub open spec fn valid(self) -> bool {
        &&& only_commands(self.commands)
        &&& only_reports(self.results)
        &&& self.exited ==> self.in_flight is None
    }

    /// The controlling side submits a source.
    pub open spec fn enqueue(self, code: Seq<char>) -> RunnerView {
        RunnerView { commands: self.commands.push(MessageView::Run(code)), ..self }
    }

    /// The controlling side asks the worker to finish.
    pub open spec fn stop(self) -> RunnerView {
        RunnerView { commands: self.commands.push(MessageView::Exit), ..self }
    }

    /// One turn of the worker. Once it has left it reads nothing; while a
    /// source is in flight it starts nothing; otherwise it receives the oldest
    /// command, if there is one, and acts on it.
    pub open spec fn next(self) -> (RunnerView, ActionView) {
        if self.exited {
            (self, ActionView::Stop)
        } else if self.in_flight is Some || self.commands.len() == 0 {
            (self, ActionView::Wait)
        } else {
            let rest = RunnerView { commands: self.commands.drop_first(), ..self };
            match decision(Some(self.commands[0])) {
                ActionView::Evaluate(code) => (
                    RunnerView { in_flight: Some(code), ..rest },
                    ActionView::Evaluate(code),
                ),
                ActionView::Stop => (RunnerView { exited: true, ..rest }, ActionView::Stop),
                ActionView::Wait => (rest, ActionView::Wait),
            }
        }
    }

    /// The worker reports what the evaluator returned for the source in
    /// flight. With nothing in flight there is nothing to report.
    pub open spec fn complete(self, evaluated: Option<Seq<char>>) -> RunnerView {
        if self.in_flight is Some {
            RunnerView {
                results: self.results.push(outcome_of(evaluated)),
                in_flight: None,
                ..self
            }
        } else {
            self
        }
    }

    /// One poll of the controlling side: it takes the oldest outcome, if there
    /// is one, and hands on the text of a success.
    pub open spec fn peek(self) -> (RunnerView, Option<Seq<char>>) {
        if self.results.len() == 0 {
            (self, None)
        } else {
            (
                RunnerView { results: self.results.drop_first(), ..self },
                text_of(Some(self.results[0])),
            )
        }
    }
}

/// The runner: the queue of commands on their way to the worker, the queue of
/// outcomes on their way back, and the state of the worker.
///
/// The controlling side calls [`enqueue_script`](JsRunnerComm::enqueue_script),
/// [`peek_result`](JsRunnerComm::peek_result) and
/// [`stop`](JsRunnerComm::stop), none of which waits for an execution. The
/// worker calls [`next_action`](JsRunnerComm::next_action) for its next turn
/// and [`complete`](JsRunnerComm::complete) when the evaluator has returned.
pub struct JsRunnerComm {
    commands: VecDeque<Message>,
    results: VecDeque<Message>,
    in_flight: Option<String>,
    exited: bool,
}

impl View for JsRunnerComm {
    type V = RunnerView;

    closed spec fn view(&self) -> RunnerView {
        RunnerView {
            commands: self.commands.deep_view(),
            results: self.results.deep_view(),
            in_flight: self.in_flight.deep_view(),
            exited: self.exited,
        }
    }
}

/// Starts a runner: its worker is running, and nothing has been sent in
/// either direction.
pub fn spawn() -> (runner: JsRunnerComm)
    ensures
        runner@ == RunnerView::fresh(),
        runner@.valid(),
{
    let runner = JsRunnerComm {
        commands: VecDeque::new(),
        results: VecDeque::new(),
        in_flight: None,
        exited: false,
    };
    assert(runner.commands.deep_view() =~= Seq::empty());
    assert(runner.results.deep_view() =~= Seq::empty());
    runner
}

impl JsRunnerComm {
    #[verifier::type_invariant]
    spec fn well_formed(self) -> bool {
        self@.valid()
    }

    /// Submits a source for execution: it joins the commands behind those
    /// already sent. Nothing is executed here, so the call returns at once.
    ///
    /// The worker must still be in its loop: a worker that has left receives
    /// nothing any more.
    pub fn enqueue_script(&mut self, code: &str)
        requires
            !old(self)@.exited,
        ensures
            final(self)@ == old(self)@.enqueue(code@),
            final(self)@.valid(),
    {
        proof {
            use_type_invariant(&*self);
        }
        // The queue is taken out for the push and put back after it.
        let mut commands = VecDeque::new();
        core::mem::swap(&mut self.commands, &mut commands);
        commands.push_back(Message::Run(code.to_owned()));
        assert(commands.deep_view() =~= old(self).commands.deep_view().push(
            MessageView::Run(code@),
        ));
        self.commands = commands;
    }

    /// Takes the oldest outcome, if one has arrived, and returns the text of
    /// a success. Returns `None` when nothing has arrived, and also when the
    /// outcome taken is a failure. At most one outcome is taken per call.
    pub fn peek_result(&mut self) -> (text: Option<String>)
        ensures
            (final(self)@, text.deep_view()) == old(self)@.peek(),
            final(self)@.valid(),
    {
        proof {
            use_type_invariant(&*self);
        }
        let mut results = VecDeque::new();
        core::mem::swap(&mut self.results, &mut results);
        let received = results.pop_front();
        assert(results.deep_view() =~= if old(self).results@.len() == 0 {
            old(self).results.deep_view()
        } else {
            old(self).results.deep_view().drop_first()
        });
        self.results = results;
        successful_text(received)
    }

    /// Asks the worker to finish: `Exit` joins the commands behind those
    /// already sent, so what was submitted before is still executed. Calling
    /// it again, or after the worker has left, does no harm: the worker leaves
    /// at the first `Exit` it receives and reads nothing after it.
    pub fn stop(&mut self)
        ensures
            final(self)@ == old(self)@.stop(),
            final(self)@.valid(),
    {
        proof {
            use_type_invariant(&*self);
        }
        let mut commands = VecDeque::new();
        core::mem::swap(&mut self.commands, &mut commands);
        commands.push_back(Message::Exit);
        assert(commands.deep_view() =~= old(self).commands.deep_view().push(MessageView::Exit));
        self.commands = commands;
    }

    /// One turn of the worker: what it has to do next.
    ///
    /// `Stop` once it has left its loop, whatever is queued. `Wait` while a
    /// source is in flight, and when no command has arrived. Otherwise it
    /// receives the oldest command: a source becomes the one in flight and is
    /// returned for execution; `Exit` makes the worker leave.
    pub fn next_action(&mut self) -> (action: Action)
        ensures
            (final(self)@, action@) == old(self)@.next(),
            final(self)@.valid(),
    {
        proof {
            use_type_invariant(&*self);
        }
        if self.exited {
            return Action::Stop;
        }
        if self.in_flight.is_some() || self.commands.len() == 0 {
            return Action::Wait;
        }
        let mut commands = VecDeque::new();
        core::mem::swap(&mut self.commands, &mut commands);
        let received = commands.pop_front();
        assert(commands.deep_view() =~= old(self).commands.deep_view().drop_first());
        self.commands = commands;
        let action = on_receive(received);
        match &action {
            Action::Evaluate(code) => {
                self.in_flight = Some(code.clone());
            },
            Action::Stop => {
                self.exited = true;
            },
            Action::Wait => {},
        }
        action
    }

    /// The worker reports what the evaluator returned for the source in
    /// flight: the outcome joins the results behind those not yet taken, and
    /// the worker is free for its next command. With nothing in flight the
    /// call changes nothing.
    pub fn complete(&mut self, evaluated: Option<String>)
        ensures
            final(self)@ == old(self)@.complete(evaluated.deep_view()),
            final(self)@.valid(),
    {
        proof {
            use_type_invariant(&*self);
        }
        if self.in_flight.is_some() {
            let mut results = VecDeque::new();
            core::mem::swap(&mut self.results, &mut results);
            results.push_back(outcome(evaluated));
            assert(results.deep_view() =~= old(self).results.deep_view().push(
                outcome_of(evaluated.deep_view()),
            ));
            self.results = results;
            self.in_flight = None;
        }
    }

    /// Whether the worker is still in its loop.
    pub fn is_running(&self) -> (running: bool)
        ensures
            running == !self@.exited,
    {
        !self.exited
    }

    /// Whether the worker is executing a source.
    pub fn is_busy(&self) -> (busy: bool)
        ensures
            busy == (self@.in_flight is Some),
    {
        self.in_flight.is_some()
    }
}

} // verus!
