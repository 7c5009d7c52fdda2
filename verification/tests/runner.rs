use javascript_runner::js_runner::{spawn, Action, JsRunnerComm};

/// Stands in for the scripting engine: the text of the value, or `None`
/// where the source does not compile or fails.
fn evaluate(code: &str) -> Option<String> {
    match code {
        "1 + 1" => Some("2".to_owned()),
        "2 + 2" => Some("4".to_owned()),
        "'a' + 'b'" => Some("ab".to_owned()),
        "undefined" => Some("undefined".to_owned()),
        _ => None,
    }
}

/// Lets the worker take its turns until it has nothing left to do, and
/// returns the sources that it executed, in order.
fn work(runner: &mut JsRunnerComm) -> Vec<String> {
    let mut executed = Vec::new();
    while let Action::Evaluate(code) = runner.next_action() {
        runner.complete(evaluate(&code));
        executed.push(code);
    }
    executed
}

/// The controlling side's end of a runner, as an owner of it would hold it:
/// letting go of it asks the worker to finish.
struct Handle<'a>(&'a mut JsRunnerComm);

impl Drop for Handle<'_> {
    fn drop(&mut self) {
        self.0.stop();
    }
}

#[test]
fn fresh_runner_is_idle() {
    let mut runner = spawn();
    assert!(runner.is_running());
    assert!(!runner.is_busy());
    assert_eq!(runner.next_action(), Action::Wait);
    assert_eq!(runner.peek_result(), None);
    assert!(runner.is_running());
}

#[test]
fn one_plus_one_is_polled_as_two() {
    let mut runner = spawn();
    runner.enqueue_script("1 + 1");
    assert_eq!(runner.peek_result(), None);
    assert_eq!(work(&mut runner), vec!["1 + 1".to_owned()]);
    assert_eq!(runner.peek_result(), Some("2".to_owned()));
}

#[test]
fn success_is_polled_exactly_once() {
    let mut runner = spawn();
    runner.enqueue_script("'a' + 'b'");
    work(&mut runner);
    assert_eq!(runner.peek_result(), Some("ab".to_owned()));
    assert_eq!(runner.peek_result(), None);
    assert_eq!(runner.peek_result(), None);
    assert_eq!(work(&mut runner), Vec::<String>::new());
    assert_eq!(runner.peek_result(), None);
}

#[test]
fn unterminated_block_is_never_polled_as_success() {
    let mut runner = spawn();
    runner.enqueue_script("{");
    assert_eq!(work(&mut runner), vec!["{".to_owned()]);
    assert_eq!(runner.peek_result(), None);
    assert_eq!(runner.peek_result(), None);
    assert!(runner.is_running());
}

#[test]
fn failure_does_not_stop_the_worker() {
    let mut runner = spawn();
    runner.enqueue_script("{");
    work(&mut runner);
    runner.enqueue_script("1 + 1");
    assert_eq!(work(&mut runner), vec!["1 + 1".to_owned()]);
    // The failure is taken by the first poll, the success by the second.
    assert_eq!(runner.peek_result(), None);
    assert_eq!(runner.peek_result(), Some("2".to_owned()));
}

#[test]
fn two_submissions_are_polled_in_order() {
    let mut runner = spawn();
    runner.enqueue_script("1 + 1");
    runner.enqueue_script("2 + 2");
    assert_eq!(work(&mut runner), vec!["1 + 1".to_owned(), "2 + 2".to_owned()]);
    assert_eq!(runner.peek_result(), Some("2".to_owned()));
    assert_eq!(runner.peek_result(), Some("4".to_owned()));
    assert_eq!(runner.peek_result(), None);
}

#[test]
fn poll_takes_one_result_per_call() {
    let mut runner = spawn();
    runner.enqueue_script("2 + 2");
    runner.enqueue_script("{");
    runner.enqueue_script("1 + 1");
    work(&mut runner);
    assert_eq!(runner.peek_result(), Some("4".to_owned()));
    assert_eq!(runner.peek_result(), None);
    assert_eq!(runner.peek_result(), Some("2".to_owned()));
    assert_eq!(runner.peek_result(), None);
}

#[test]
fn second_source_waits_for_the_first() {
    let mut runner = spawn();
    runner.enqueue_script("1 + 1");
    runner.enqueue_script("2 + 2");
    assert_eq!(runner.next_action(), Action::Evaluate("1 + 1".to_owned()));
    assert!(runner.is_busy());
    // While the first is in flight the worker's turns start nothing.
    assert_eq!(runner.next_action(), Action::Wait);
    assert_eq!(runner.next_action(), Action::Wait);
    assert_eq!(runner.peek_result(), None);
    runner.complete(evaluate("1 + 1"));
    assert!(!runner.is_busy());
    assert_eq!(runner.next_action(), Action::Evaluate("2 + 2".to_owned()));
    assert_eq!(runner.peek_result(), Some("2".to_owned()));
    assert_eq!(runner.peek_result(), None);
    runner.complete(evaluate("2 + 2"));
    assert_eq!(runner.peek_result(), Some("4".to_owned()));
}

#[test]
fn submission_during_execution_is_queued() {
    let mut runner = spawn();
    runner.enqueue_script("1 + 1");
    assert_eq!(runner.next_action(), Action::Evaluate("1 + 1".to_owned()));
    runner.enqueue_script("2 + 2");
    assert_eq!(runner.next_action(), Action::Wait);
    runner.complete(Some("2".to_owned()));
    assert_eq!(runner.next_action(), Action::Evaluate("2 + 2".to_owned()));
}

#[test]
fn complete_with_nothing_in_flight_changes_nothing() {
    let mut runner = spawn();
    runner.complete(Some("stray".to_owned()));
    assert_eq!(runner.peek_result(), None);
    assert!(!runner.is_busy());
    assert!(runner.is_running());
}

#[test]
fn stop_ends_the_worker() {
    let mut runner = spawn();
    runner.stop();
    assert!(runner.is_running());
    assert_eq!(runner.next_action(), Action::Stop);
    assert!(!runner.is_running());
    assert_eq!(runner.next_action(), Action::Stop);
}

#[test]
fn stop_twice_is_harmless() {
    let mut runner = spawn();
    runner.enqueue_script("1 + 1");
    runner.stop();
    runner.stop();
    assert_eq!(work(&mut runner), vec!["1 + 1".to_owned()]);
    assert!(!runner.is_running());
    assert_eq!(runner.next_action(), Action::Stop);
    assert_eq!(runner.next_action(), Action::Stop);
    assert_eq!(runner.peek_result(), Some("2".to_owned()));
    assert_eq!(runner.peek_result(), None);
}

#[test]
fn stop_after_the_worker_has_left_is_harmless() {
    let mut runner = spawn();
    runner.stop();
    assert_eq!(runner.next_action(), Action::Stop);
    runner.stop();
    assert!(!runner.is_running());
    assert_eq!(runner.next_action(), Action::Stop);
    assert_eq!(runner.peek_result(), None);
}

#[test]
fn stop_twice_reports_what_stop_once_reports() {
    let mut once = spawn();
    let mut twice = spawn();
    for runner in [&mut once, &mut twice] {
        runner.enqueue_script("2 + 2");
        runner.enqueue_script("{");
        runner.stop();
    }
    twice.stop();
    assert_eq!(work(&mut once), work(&mut twice));
    assert_eq!(once.is_running(), twice.is_running());
    for _ in 0..3 {
        assert_eq!(once.peek_result(), twice.peek_result());
    }
}

#[test]
fn what_was_submitted_before_stop_is_still_executed() {
    let mut runner = spawn();
    runner.enqueue_script("1 + 1");
    runner.enqueue_script("2 + 2");
    runner.stop();
    assert_eq!(work(&mut runner), vec!["1 + 1".to_owned(), "2 + 2".to_owned()]);
    assert!(!runner.is_running());
    assert_eq!(runner.peek_result(), Some("2".to_owned()));
    assert_eq!(runner.peek_result(), Some("4".to_owned()));
}

#[test]
fn what_is_submitted_behind_stop_is_never_executed() {
    let mut runner = spawn();
    runner.stop();
    runner.enqueue_script("1 + 1");
    assert_eq!(work(&mut runner), Vec::<String>::new());
    assert!(!runner.is_running());
    assert_eq!(runner.peek_result(), None);
}

#[test]
fn stop_during_execution_is_seen_after_it() {
    let mut runner = spawn();
    runner.enqueue_script("1 + 1");
    assert_eq!(runner.next_action(), Action::Evaluate("1 + 1".to_owned()));
    runner.stop();
    assert_eq!(runner.next_action(), Action::Wait);
    assert!(runner.is_running());
    runner.complete(Some("2".to_owned()));
    assert_eq!(runner.next_action(), Action::Stop);
    assert!(!runner.is_running());
    assert_eq!(runner.peek_result(), Some("2".to_owned()));
}

#[test]
fn results_outlive_the_worker() {
    let mut runner = spawn();
    runner.enqueue_script("undefined");
    runner.stop();
    work(&mut runner);
    assert!(!runner.is_running());
    assert_eq!(runner.peek_result(), Some("undefined".to_owned()));
}

#[test]
fn dropped_handle_asks_the_worker_to_finish() {
    let mut runner = spawn();
    {
        let handle = Handle(&mut runner);
        handle.0.enqueue_script("1 + 1");
    }
    assert!(runner.is_running());
    assert_eq!(work(&mut runner), vec!["1 + 1".to_owned()]);
    assert!(!runner.is_running());
    assert_eq!(runner.next_action(), Action::Stop);
}

#[test]
fn dropped_handle_after_explicit_stop_is_harmless() {
    let mut runner = spawn();
    {
        let handle = Handle(&mut runner);
        handle.0.stop();
        assert_eq!(handle.0.next_action(), Action::Stop);
    }
    assert!(!runner.is_running());
    assert_eq!(runner.next_action(), Action::Stop);
    assert_eq!(runner.peek_result(), None);
}

#[test]
fn source_reaches_the_worker_unchanged() {
    let mut runner = spawn();
    runner.enqueue_script("");
    runner.enqueue_script("'\u{e9}' + \"\u{1f5ae}\"\n// done");
    assert_eq!(runner.next_action(), Action::Evaluate(String::new()));
    runner.complete(None);
    assert_eq!(
        runner.next_action(),
        Action::Evaluate("'\u{e9}' + \"\u{1f5ae}\"\n// done".to_owned())
    );
}

#[test]
fn text_reaches_the_poll_unchanged() {
    let mut runner = spawn();
    runner.enqueue_script("x");
    assert_eq!(runner.next_action(), Action::Evaluate("x".to_owned()));
    runner.complete(Some("\u{e9}\n\u{1f5ae} ".to_owned()));
    assert_eq!(runner.peek_result(), Some("\u{e9}\n\u{1f5ae} ".to_owned()));
}

#[test]
fn many_submissions_keep_their_order() {
    let mut runner = spawn();
    for i in 0..100 {
        runner.enqueue_script(&format!("{i}"));
    }
    for i in 0..100 {
        assert_eq!(runner.next_action(), Action::Evaluate(format!("{i}")));
        // Odd sources fail, even ones give their own text back.
        runner.complete(if i % 2 == 0 { Some(format!("{i}")) } else { None });
    }
    assert_eq!(runner.next_action(), Action::Wait);
    for i in 0..100 {
        let expected = if i % 2 == 0 { Some(format!("{i}")) } else { None };
        assert_eq!(runner.peek_result(), expected);
    }
    assert_eq!(runner.peek_result(), None);
}

#[test]
fn polling_between_executions_sees_what_is_done() {
    let mut runner = spawn();
    runner.enqueue_script("1 + 1");
    runner.enqueue_script("2 + 2");
    assert_eq!(runner.next_action(), Action::Evaluate("1 + 1".to_owned()));
    runner.complete(evaluate("1 + 1"));
    assert_eq!(runner.peek_result(), Some("2".to_owned()));
    assert_eq!(runner.peek_result(), None);
    assert_eq!(work(&mut runner), vec!["2 + 2".to_owned()]);
    assert_eq!(runner.peek_result(), Some("4".to_owned()));
}
