//! Self-verification: whether a run has run its tests, and how they went.

use crate::agent;
use crate::agent::ToolCallRecord;
use crate::json;
use crate::text;
use vstd::prelude::*;
use vstd::string::*;

verus! {

/// What the calls of a run say of its tests.
#[derive(Clone, Debug, PartialEq, Eq)]
pub enum BenchmarkVerification {
    TestsNotRun,
    /// With the output of the tests.
    TestsFailed(String),
    TestsPassed,
}

#[verifier::ext_equal]
pub ghost enum Verdict {
    TestsNotRun,
    TestsFailed(Seq<char>),
    TestsPassed,
}

impl View for BenchmarkVerification {
    type V = Verdict;

    open spec fn view(&self) -> Verdict {
        match self {
            BenchmarkVerification::TestsNotRun => Verdict::TestsNotRun,
            BenchmarkVerification::TestsFailed(s) => Verdict::TestsFailed(s@),
            BenchmarkVerification::TestsPassed => Verdict::TestsPassed,
        }
    }
}

/// The command of a call; empty where it has none.
pub open spec fn command_of(input: json::JsonView) -> Seq<char> {
    input.at("command"@).str_or(Seq::empty())
}

/// A command that runs tests.
pub open spec fn runs_tests(command: Seq<char>) -> bool {
    ||| text::occurs("run-tests"@, command)
    ||| text::occurs("run_tests"@, command)
    ||| text::occurs("pytest"@, command)
    ||| text::occurs("python -m pytest"@, command)
    ||| text::occurs("bash run-tests.sh"@, command)
    ||| text::occurs("npm test"@, command)
    ||| text::occurs("cargo test"@, command)
    ||| text::occurs("go test"@, command)
    ||| text::occurs("make test"@, command)
    ||| text::occurs("jest"@, command)
    ||| text::occurs("mocha"@, command)
    ||| text::occurs("unittest"@, command)
}

/// A call that runs tests.
pub open spec fn is_test_call(call: agent::RecordView) -> bool {
    (call.name == "Bash"@ || call.name == "bash"@) && runs_tests(command_of(call.input))
}

/// The most recent call that runs tests, among the last `n` calls.
pub open spec fn latest_test(calls: Seq<agent::RecordView>, n: int) -> Option<agent::RecordView>
    decreases calls.len(),
{
    if calls.len() == 0 || n <= 0 {
        None
    } else if is_test_call(calls.last()) {
        Some(calls.last())
    } else {
        latest_test(calls.drop_last(), n - 1)
    }
}

/// An output that speaks of success. `lower` is the output in lower case.
pub open spec fn speaks_of_success(output: Seq<char>, lower: Seq<char>) -> bool {
    ||| text::occurs("passed"@, lower)
    ||| text::occurs("success"@, lower)
    ||| text::occurs("all tests"@, lower)
    ||| text::occurs("exit code 0"@, lower)
    ||| text::occurs("PASSED"@, output)
    ||| text::occurs("PASS"@, output)
    ||| (text::occurs(" ok"@, lower) && !text::occurs("not ok"@, lower))
}

/// An output that speaks of failure. `lower` is the output in lower case.
pub open spec fn speaks_of_failure(lower: Seq<char>) -> bool {
    ||| text::occurs("failed"@, lower)
    ||| text::occurs("failure"@, lower)
    ||| text::occurs("traceback"@, lower)
    ||| text::occurs("not ok"@, lower)
    ||| text::occurs("assertion"@, lower)
    ||| (text::occurs("error"@, lower) && !text::occurs("error handling"@, lower) && !text::occurs(
        "error_"@,
        lower,
    ))
}

/// Tests failed: the call failed, or its output speaks of failure and not of
/// success.
pub open spec fn tests_failed(is_error: bool, output: Seq<char>, lower: Seq<char>) -> bool {
    is_error || (speaks_of_failure(lower) && !speaks_of_success(output, lower))
}

/// What the calls of a run say of its tests: the most recent run of tests among
/// the last 30 calls decides.
pub open spec fn verdict(calls: Seq<agent::RecordView>) -> Verdict {
    match latest_test(calls, 30) {
        None => Verdict::TestsNotRun,
        Some(call) => if tests_failed(call.is_error, call.result, text::lowercased(call.result)) {
            Verdict::TestsFailed(call.result)
        } else {
            Verdict::TestsPassed
        },
    }
}

/// Whether a command runs tests.
pub fn is_test_command(command: &str) -> (r: bool)
    ensures
        r == runs_tests(command@),
{
    text::contains(command, "run-tests") || text::contains(command, "run_tests")
        || text::contains(command, "pytest") || text::contains(command, "python -m pytest")
        || text::contains(command, "bash run-tests.sh") || text::contains(command, "npm test")
        || text::contains(command, "cargo test") || text::contains(command, "go test")
        || text::contains(command, "make test") || text::contains(command, "jest")
        || text::contains(command, "mocha") || text::contains(command, "unittest")
}

/// Whether tests failed. `lower` is the output in lower case.
pub fn judge_output(is_error: bool, output: &str, lower: &str) -> (r: bool)
    ensures
        r == tests_failed(is_error, output@, lower@),
{
    if is_error {
        return true;
    }
    let not_ok = text::contains(lower, "not ok");
    let pass = text::contains(lower, "passed") || text::contains(lower, "success")
        || text::contains(lower, "all tests") || text::contains(lower, "exit code 0")
        || text::contains(output, "PASSED") || text::contains(output, "PASS") || (text::contains(
        lower,
        " ok",
    ) && !not_ok);
    let failure = text::contains(lower, "failed") || text::contains(lower, "failure")
        || text::contains(lower, "traceback") || not_ok || text::contains(lower, "assertion") || (
    text::contains(lower, "error") && !text::contains(lower, "error handling") && !text::contains(
        lower,
        "error_",
    ));
    failure && !pass
}

/// The command of a call; empty where it has none.
pub fn command_text(input: &json::Json) -> (r: String)
    ensures
        r@ == command_of(input@),
{
    input.text_at("command")
}

/// Looks in the calls of a run for tests, and for how they went.
pub fn benchmark_check_tests(tool_calls: &Vec<ToolCallRecord>) -> (r: BenchmarkVerification)
    ensures
        r@ == verdict(agent::records_view(tool_calls@)),
{
    let ghost all = agent::records_view(tool_calls@);
    let mut i: usize = tool_calls.len();
    let mut left: usize = 30;
    assert(all.take(i as int) =~= all);
    while i > 0 && left > 0
        invariant
            i <= tool_calls@.len(),
            left <= 30,
            all == agent::records_view(tool_calls@),
            latest_test(all, 30) == latest_test(all.take(i as int), left as int),
        decreases i,
    {
        assert(all.take(i as int).drop_last() =~= all.take(i - 1));
        assert(all.take(i as int).last() == tool_calls@[i - 1]@);
        let call = &tool_calls[i - 1];
        let is_shell = text::same(call.name.as_str(), "Bash") || text::same(
            call.name.as_str(),
            "bash",
        );
        if is_shell {
            let command = command_text(&call.input);
            if is_test_command(command.as_str()) {
                let lower = text::to_lowercase(call.result.as_str());
                if judge_output(call.is_error, call.result.as_str(), lower.as_str()) {
                    return BenchmarkVerification::TestsFailed(call.result.clone());
                } else {
                    return BenchmarkVerification::TestsPassed;
                }
            }
        }
        i = i - 1;
        left = left - 1;
    }
    BenchmarkVerification::TestsNotRun
}

/// Only the most recent run of tests counts: what was called before it does not
/// change the verdict.
pub proof fn only_the_latest_tests_count(
    earlier: Seq<agent::RecordView>,
    other: Seq<agent::RecordView>,
    test: agent::RecordView,
)
    requires
        is_test_call(test),
    ensures
        verdict(earlier.push(test)) == verdict(other.push(test)),
{
}

/// What the commands that run tests have in them.
pub open spec fn test_words() -> Seq<Seq<char>> {
    seq!["run-tests"@, "run_tests"@, "pytest"@, "npm test"@, "cargo test"@, "go test"@, "make test"@, "jest"@, "mocha"@, "unittest"@]
}

/// What an output that speaks of success has in it, in lower case.
pub open spec fn success_words() -> Seq<Seq<char>> {
    seq!["passed"@, "success"@, "all tests"@, "exit code 0"@]
}

/// What an output that speaks of failure has in it, in lower case.
pub open spec fn failure_words() -> Seq<Seq<char>> {
    seq!["failed"@, "failure"@, "traceback"@, "not ok"@, "assertion"@]
}

/// One of the words is in a text.
pub open spec fn mentions(s: Seq<char>, words: Seq<Seq<char>>) -> bool {
    exists|i: int| 0 <= i < words.len() && text::occurs(#[trigger] words[i], s)
}

/// A part of a text is in whatever the text is in.
proof fn lemma_part_occurs(part: Seq<char>, whole: Seq<char>, s: Seq<char>, at: int)
    requires
        text::occurs(whole, s),
        0 <= at,
        at + part.len() <= whole.len(),
        whole.subrange(at, at + part.len()) == part,
    ensures
        text::occurs(part, s),
{
    let i = choose|i: int| #[trigger] text::occurs_at(whole, s, i);
    assert(s.subrange(i, i + whole.len()).subrange(at, at + part.len()) =~= s.subrange(
        i + at,
        i + at + part.len(),
    ));
    assert(text::occurs_at(part, s, i + at));
}

/// A call runs tests just where it is one of the shell and its command has in it what
/// commands that run tests have.
pub proof fn test_calls_are_told_by_their_commands(
    call: agent::RecordView,
    members: Map<Seq<char>, json::JsonView>,
    command: Seq<char>,
)
    requires
        call.input == json::JsonView::Object(members),
        json::holds(members, "command"@, json::JsonView::Str(command)),
    ensures
        is_test_call(call) <==> (call.name == "Bash"@ || call.name == "bash"@) && mentions(
            command,
            test_words(),
        ),
{
    assert(command_of(call.input) == command);
    assert(test_words()[0] == "run-tests"@);
    assert(test_words()[1] == "run_tests"@);
    assert(test_words()[2] == "pytest"@);
    assert(test_words()[3] == "npm test"@);
    assert(test_words()[4] == "cargo test"@);
    assert(test_words()[5] == "go test"@);
    assert(test_words()[6] == "make test"@);
    assert(test_words()[7] == "jest"@);
    assert(test_words()[8] == "mocha"@);
    assert(test_words()[9] == "unittest"@);
    if text::occurs("python -m pytest"@, command) {
        reveal_strlit("python -m pytest");
        reveal_strlit("pytest");
        assert("python -m pytest"@.subrange(10, 16) =~= "pytest"@);
        lemma_part_occurs("pytest"@, "python -m pytest"@, command, 10);
    }
    if text::occurs("bash run-tests.sh"@, command) {
        reveal_strlit("bash run-tests.sh");
        reveal_strlit("run-tests");
        assert("bash run-tests.sh"@.subrange(5, 14) =~= "run-tests"@);
        lemma_part_occurs("run-tests"@, "bash run-tests.sh"@, command, 5);
    }
}

proof fn lemma_latest_test(calls: Seq<agent::RecordView>, n: int, i: int)
    requires
        0 <= i < calls.len(),
        calls.len() - i <= n,
        is_test_call(calls[i]),
        forall|j: int| i < j < calls.len() ==> !is_test_call(#[trigger] calls[j]),
    ensures
        latest_test(calls, n) == Some(calls[i]),
    decreases calls.len(),
{
    if i < calls.len() - 1 {
        assert(!is_test_call(calls[calls.len() - 1]));
        assert forall|j: int| i < j < calls.drop_last().len() implies !is_test_call(
            #[trigger] calls.drop_last()[j],
        ) by {
            assert(calls.drop_last()[j] == calls[j]);
        }
        lemma_latest_test(calls.drop_last(), n - 1, i);
    }
}

proof fn lemma_no_test(calls: Seq<agent::RecordView>, n: int)
    requires
        forall|j: int|
            0 <= j < calls.len() && calls.len() - n <= j ==> !is_test_call(#[trigger] calls[j]),
    ensures
        latest_test(calls, n) is None,
    decreases calls.len(),
{
    if calls.len() > 0 && n > 0 {
        assert(!is_test_call(calls[calls.len() - 1]));
        assert forall|j: int|
            0 <= j < calls.drop_last().len() && calls.drop_last().len() - (n - 1)
                <= j implies !is_test_call(#[trigger] calls.drop_last()[j]) by {
            assert(calls.drop_last()[j] == calls[j]);
        }
        lemma_no_test(calls.drop_last(), n - 1);
    }
}

/// The latest call among the last thirty that runs tests decides. Tests failed where the
/// call failed, or where its output speaks of failure and nowhere of success; else they
/// passed.
pub proof fn the_latest_tests_decide(calls: Seq<agent::RecordView>, i: int)
    requires
        0 <= i < calls.len(),
        calls.len() - i <= 30,
        is_test_call(calls[i]),
        forall|j: int| i < j < calls.len() ==> !is_test_call(#[trigger] calls[j]),
    ensures
        ({
            let output = calls[i].result;
            let lower = text::lowercased(output);
            let good = mentions(lower, success_words()) || text::occurs("PASS"@, output) || (
            text::occurs(" ok"@, lower) && !text::occurs("not ok"@, lower));
            let bad = mentions(lower, failure_words()) || (text::occurs("error"@, lower)
                && !text::occurs("error handling"@, lower) && !text::occurs("error_"@, lower));
            &&& calls[i].is_error ==> verdict(calls) == Verdict::TestsFailed(output)
            &&& !calls[i].is_error && bad && !good ==> verdict(calls) == Verdict::TestsFailed(
                output,
            )
            &&& !calls[i].is_error && !(bad && !good) ==> verdict(calls) == Verdict::TestsPassed
        }),
{
    lemma_latest_test(calls, 30, i);
    let output = calls[i].result;
    if text::occurs("PASSED"@, output) {
        reveal_strlit("PASSED");
        reveal_strlit("PASS");
        assert("PASSED"@.subrange(0, 4) =~= "PASS"@);
        lemma_part_occurs("PASS"@, "PASSED"@, output, 0);
    }
    assert(success_words()[0] == "passed"@);
    assert(success_words()[1] == "success"@);
    assert(success_words()[2] == "all tests"@);
    assert(success_words()[3] == "exit code 0"@);
    assert(failure_words()[0] == "failed"@);
    assert(failure_words()[1] == "failure"@);
    assert(failure_words()[2] == "traceback"@);
    assert(failure_words()[3] == "not ok"@);
    assert(failure_words()[4] == "assertion"@);
}

/// Where none of the last thirty calls runs tests, tests were not run.
pub proof fn without_test_calls_tests_were_not_run(calls: Seq<agent::RecordView>)
    requires
        forall|j: int|
            0 <= j < calls.len() && calls.len() - 30 <= j ==> !is_test_call(#[trigger] calls[j]),
    ensures
        verdict(calls) == Verdict::TestsNotRun,
{
    lemma_no_test(calls, 30);
}

} // verus!
