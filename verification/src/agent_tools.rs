//! The agent tools built on subagents: self-delegation, parallel fan-out,
//! and joining background tasks. What is decided here is whether a request
//! may start, and how results are reported and counted.
use vstd::prelude::*;
use crate::agent::{exhausted_msg, has_subagent, pairs_view, unknown_subagent_msg, TaskBudget};
use crate::text::{append_chars, append_str, chars_eq, chars_of, decimal, decimal_vec, join_vec, lemma_views_push, string_of, views};

verus! {

// ---------------------------------------------------------------------------
// Self-delegation
// ---------------------------------------------------------------------------

/// The subagent name under which an agent runs a copy of itself.
pub const SELF_AGENT_NAME: &'static str = "__self__";

/// Parameters of the self-delegation tool.
#[derive(Debug)]
pub struct AgentToolParams {
    pub description: String,
    pub prompt: String,
    pub background: bool,
    pub task_id: Option<String>,
}

/// The self-delegation tool.
#[derive(Debug)]
pub struct AgentTool;

impl AgentTool {
    pub fn new() -> (r: Self) {
        AgentTool
    }

    /// The tool's registered name.
    pub fn name(&self) -> (r: &'static str)
        ensures
            r@ == "agent"@,
    {
        "agent"
    }
}

/// Error when the nesting limit of self-delegation is reached.
pub open spec fn agent_depth_msg(max_depth: nat) -> Seq<char> {
    "Maximum agent depth ("@ + decimal(max_depth) + ") reached"@
}

/// The checks before a copy of the agent is started: a budget slot must be
/// free (its error returned when none is left), then the depth limit. The
/// slot is taken only when both pass: a refused request uses no slot.
pub fn check_self_agent_request(budget: &mut TaskBudget, depth: usize, max_depth: usize) -> (r: Result<(), String>)
    requires
        old(budget).wf(),
    ensures
        final(budget).wf(),
        old(budget)@.0 >= old(budget)@.1 ==> final(budget)@ == old(budget)@ && (r matches Err(e) && e@
            == exhausted_msg(old(budget)@.0, old(budget)@.1)),
        old(budget)@.0 < old(budget)@.1 && depth >= max_depth ==> final(budget)@ == old(budget)@ && (r matches Err(e)
            && e@ == agent_depth_msg(max_depth as nat)),
        old(budget)@.0 < old(budget)@.1 && depth < max_depth ==> r is Ok && final(budget)@ == (
            (old(budget)@.0 + 1) as nat,
            old(budget)@.1,
        ),
{
    if budget.remaining() == 0 {
        return budget.try_acquire();
    }
    if depth >= max_depth {
        let mut m = chars_of("Maximum agent depth (");
        append_chars(&mut m, &decimal_vec(max_depth as u64));
        append_str(&mut m, ") reached");
        return Err(string_of(&m));
    }
    budget.try_acquire()
}

// ---------------------------------------------------------------------------
// Parallel fan-out
// ---------------------------------------------------------------------------

/// Most tasks one parallel request may hold.
pub const MAX_PARALLEL_TASKS: usize = 25;

/// Timeout of each task when the caller gives none, in seconds.
pub const DEFAULT_TIMEOUT_SECS: u64 = 300;

/// Tasks run at once when the caller gives no limit.
pub const DEFAULT_MAX_CONCURRENT: usize = 5;

/// One task of a parallel request.
#[derive(Debug)]
pub struct SubAgentTask {
    pub description: String,
    pub prompt: String,
    pub subagent: String,
}

/// Arguments of the parallel tool.
#[derive(Debug)]
pub struct ParallelAgentArgs {
    pub tasks: Vec<SubAgentTask>,
    pub timeout_secs: u64,
    pub max_concurrent: usize,
}

/// The result of one task of a parallel request.
#[derive(Debug)]
pub struct ParallelTaskResult {
    pub description: String,
    pub subagent: String,
    pub status: String,
    pub task_id: Option<String>,
    pub output: Option<String>,
    pub error: Option<String>,
}

/// The parallel tool.
#[derive(Debug)]
pub struct ParallelAgentTool;

impl ParallelAgentTool {
    pub fn new() -> (r: Self) {
        ParallelAgentTool
    }

    /// The tool's registered name.
    pub fn name(&self) -> (r: &'static str)
        ensures
            r@ == "parallel_agent"@,
    {
        "parallel_agent"
    }
}

/// Error for a nesting limit reached by a parallel request.
pub open spec fn subagent_depth_msg(max_depth: nat) -> Seq<char> {
    "Maximum subagent depth ("@ + decimal(max_depth) + ") reached"@
}

/// Index of the first task naming an unavailable subagent, if any.
pub open spec fn first_unknown(tasks: Seq<Seq<char>>, available: Seq<(Seq<char>, Seq<char>)>, i: int) -> Option<int>
    decreases tasks.len() - i,
{
    if i < 0 || i >= tasks.len() {
        None
    } else if !has_subagent(available, tasks[i]) {
        Some(i)
    } else {
        first_unknown(tasks, available, i + 1)
    }
}

/// The checks of a parallel request, in order: at least one task, at most
/// `MAX_PARALLEL_TASKS`, the depth limit, and every task's subagent
/// available (the first that is not is named).
#[verifier::loop_isolation(false)]
pub fn validate_parallel_request(tasks: &[SubAgentTask], depth: usize, max_depth: usize, available: &[(String, String)]) -> (r: Result<(), String>)
    ensures
        tasks@.len() == 0 ==> (r matches Err(e) && e@ == "No tasks provided"@),
        tasks@.len() > MAX_PARALLEL_TASKS ==> (r matches Err(e) && e@ == "Maximum 25 tasks allowed"@),
        (0 < tasks@.len() <= MAX_PARALLEL_TASKS && depth >= max_depth) ==> (r matches Err(e) && e@ == subagent_depth_msg(
            max_depth as nat,
        )),
        (0 < tasks@.len() <= MAX_PARALLEL_TASKS && depth < max_depth) ==> match first_unknown(
            tasks@.map_values(|t: SubAgentTask| t.subagent@),
            pairs_view(available@),
            0,
        ) {
            None => r is Ok,
            Some(i) => r matches Err(e) && e@ == unknown_subagent_msg(tasks@[i].subagent@, pairs_view(available@)),
        },
{
    if tasks.len() == 0 {
        return Err("No tasks provided".to_owned());
    }
    if tasks.len() > MAX_PARALLEL_TASKS {
        return Err("Maximum 25 tasks allowed".to_owned());
    }
    if depth >= max_depth {
        let mut m = chars_of("Maximum subagent depth (");
        append_chars(&mut m, &decimal_vec(max_depth as u64));
        append_str(&mut m, ") reached");
        return Err(string_of(&m));
    }
    let ghost tv = tasks@.map_values(|t: SubAgentTask| t.subagent@);
    let ghost av = pairs_view(available@);
    let mut i: usize = 0;
    while i < tasks.len()
        invariant
            i <= tasks.len(),
            tv == tasks@.map_values(|t: SubAgentTask| t.subagent@),
            av == pairs_view(available@),
            first_unknown(tv, av, 0) == first_unknown(tv, av, i as int),
        decreases tasks.len() - i,
    {
        let name = chars_of(tasks[i].subagent.as_str());
        let mut k: usize = 0;
        let mut found = false;
        while k < available.len() && !found
            invariant
                k <= available.len(),
                av == pairs_view(available@),
                name@ == tv[i as int],
                found ==> has_subagent(av, tv[i as int]),
                !found ==> forall|j: int| 0 <= j < k ==> av[j].0 != tv[i as int],
            decreases available.len() - k + (if found { 0int } else { 1int }),
        {
            if chars_eq(&chars_of(available[k].0.as_str()), &name) {
                assert(av[k as int].0 == tv[i as int]);
                found = true;
            } else {
                k = k + 1;
            }
        }
        if !found {
            return Err(unknown_subagent_error(tasks[i].subagent.as_str(), available));
        }
        i = i + 1;
    }
    Ok(())
}

fn unknown_subagent_error(name: &str, available: &[(String, String)]) -> (r: String)
    ensures
        r@ == unknown_subagent_msg(name@, pairs_view(available@)),
{
    let ghost av = pairs_view(available@);
    let mut names: Vec<Vec<char>> = Vec::new();
    let mut k: usize = 0;
    while k < available.len()
        invariant
            k <= available.len(),
            av == pairs_view(available@),
            views(names@) == av.map_values(|a: (Seq<char>, Seq<char>)| a.0).take(k as int),
        decreases available.len() - k,
    {
        let n = chars_of(available[k].0.as_str());
        proof {
            lemma_views_push(names@, n);
            assert(av.map_values(|a: (Seq<char>, Seq<char>)| a.0).take(k + 1) =~= av.map_values(
                |a: (Seq<char>, Seq<char>)| a.0,
            ).take(k as int).push(n@));
        }
        names.push(n);
        k = k + 1;
    }
    assert(av.map_values(|a: (Seq<char>, Seq<char>)| a.0).take(available@.len() as int) =~= av.map_values(
        |a: (Seq<char>, Seq<char>)| a.0,
    ));
    let mut msg = chars_of("Unknown subagent '");
    append_str(&mut msg, name);
    append_str(&mut msg, "'. Available: [");
    append_chars(&mut msg, &join_vec(&names, &chars_of(", ")));
    append_str(&mut msg, "]");
    string_of(&msg)
}

/// How one task of a parallel request ended.
#[derive(Debug)]
pub enum TaskOutcome {
    Completed { task_id: String, output: String },
    Failed(String),
    TimedOut,
}

/// The reported result of a task: completed with its output, failed with
/// the error, or timed out after the timeout.
pub fn parallel_task_result(task: &SubAgentTask, outcome: TaskOutcome, timeout_secs: u64) -> (r: ParallelTaskResult)
    ensures
        r.description@ == task.description@,
        r.subagent@ == task.subagent@,
        match outcome {
            TaskOutcome::Completed { task_id, output } => r.status@ == "completed"@ && (r.task_id matches Some(t) && t@
                == task_id@) && (r.output matches Some(o) && o@ == output@) && r.error is None,
            TaskOutcome::Failed(e) => r.status@ == "failed"@ && r.task_id is None && r.output is None && (r.error matches Some(
                x,
            ) && x@ == e@),
            TaskOutcome::TimedOut => r.status@ == "timeout"@ && r.task_id is None && r.output is None && (r.error matches Some(
                x,
            ) && x@ == "Timeout after "@ + decimal(timeout_secs as nat) + "s"@),
        },
{
    let description = task.description.clone();
    let subagent = task.subagent.clone();
    match outcome {
        TaskOutcome::Completed { task_id, output } => ParallelTaskResult {
            description,
            subagent,
            status: "completed".to_owned(),
            task_id: Some(task_id),
            output: Some(output),
            error: None,
        },
        TaskOutcome::Failed(e) => ParallelTaskResult {
            description,
            subagent,
            status: "failed".to_owned(),
            task_id: None,
            output: None,
            error: Some(e),
        },
        TaskOutcome::TimedOut => {
            let mut m = chars_of("Timeout after ");
            append_chars(&mut m, &decimal_vec(timeout_secs));
            append_str(&mut m, "s");
            ParallelTaskResult {
                description,
                subagent,
                status: "timeout".to_owned(),
                task_id: None,
                output: None,
                error: Some(string_of(&m)),
            }
        },
    }
}

/// Number of results whose status is `status`.
pub open spec fn count_status(statuses: Seq<Seq<char>>, status: Seq<char>) -> nat
    decreases statuses.len(),
{
    if statuses.len() == 0 {
        0
    } else {
        count_status(statuses.drop_last(), status) + if statuses.last() == status { 1nat } else { 0nat }
    }
}

proof fn lemma_count_status_bound(statuses: Seq<Seq<char>>, status: Seq<char>)
    ensures
        count_status(statuses, status) <= statuses.len(),
    decreases statuses.len(),
{
    if statuses.len() > 0 {
        lemma_count_status_bound(statuses.drop_last(), status);
    }
}

/// Counts of results with a status.
pub fn count_with_status(statuses: &[String], status: &str) -> (r: usize)
    ensures
        r == count_status(statuses@.map_values(|s: String| s@), status@),
        r <= statuses@.len(),
{
    let ghost sv = statuses@.map_values(|s: String| s@);
    let st = chars_of(status);
    let mut n: usize = 0;
    let mut i: usize = 0;
    assert(sv.take(0) =~= Seq::<Seq<char>>::empty());
    while i < statuses.len()
        invariant
            i <= statuses.len(),
            sv == statuses@.map_values(|s: String| s@),
            st@ == status@,
            n == count_status(sv.take(i as int), status@),
            n <= i,
        decreases statuses.len() - i,
    {
        assert(sv.take(i + 1).drop_last() =~= sv.take(i as int));
        if chars_eq(&chars_of(statuses[i].as_str()), &st) {
            n = n + 1;
        }
        i = i + 1;
    }
    assert(sv.take(statuses@.len() as int) =~= sv);
    n
}

/// The counts of a parallel run: total, succeeded (completed), failed
/// (every other status), and whether all succeeded.
pub fn parallel_summary(statuses: &[String]) -> (r: (usize, usize, usize, bool))
    ensures
        r.0 == statuses@.len(),
        r.1 == count_status(statuses@.map_values(|s: String| s@), "completed"@),
        r.1 + r.2 == r.0,
        r.3 == (r.2 == 0),
{
    let total = statuses.len();
    let succeeded = count_with_status(statuses, "completed");
    let failed = total - succeeded;
    (total, succeeded, failed, failed == 0)
}

// ---------------------------------------------------------------------------
// Joining background tasks
// ---------------------------------------------------------------------------

/// Arguments of the join tool.
#[derive(Debug)]
pub struct JoinArgs {
    pub task_ids: Vec<String>,
    pub timeout_secs: u64,
}

/// The result of one awaited task.
#[derive(Debug, Clone)]
pub struct TaskResult {
    pub task_id: String,
    pub status: String,
    pub output: Option<String>,
    pub error: Option<String>,
}

/// The join tool's report.
#[derive(Debug)]
pub struct JoinResult {
    pub completed: Vec<TaskResult>,
    pub all_succeeded: bool,
    pub total: usize,
    pub succeeded: usize,
    pub failed: usize,
    pub not_found: usize,
}

/// A background task that finished, with its output or error.
#[derive(Debug)]
pub struct TaskCompletion {
    pub task_id: String,
    pub output: Result<String, String>,
}

/// The result recorded for a finished task: `completed` with its output, or
/// `failed` with its error.
pub fn completion_result(task_id: String, output: Result<String, String>) -> (r: TaskResult)
    ensures
        r.task_id@ == task_id@,
        match output {
            Ok(o) => r.status@ == "completed"@ && (r.output matches Some(x) && x@ == o@) && r.error is None,
            Err(e) => r.status@ == "failed"@ && r.output is None && (r.error matches Some(x) && x@ == e@),
        },
{
    match output {
        Ok(o) => TaskResult { task_id, status: "completed".to_owned(), output: Some(o), error: None },
        Err(e) => TaskResult { task_id, status: "failed".to_owned(), output: None, error: Some(e) },
    }
}

/// The result for a task the join could not find.
pub fn not_found_result(task_id: String) -> (r: TaskResult)
    ensures
        r.task_id@ == task_id@,
        r.status@ == "not_found"@,
        r.output is None,
        r.error matches Some(e) && e@ == "Task not found"@,
{
    TaskResult { task_id, status: "not_found".to_owned(), output: None, error: Some("Task not found".to_owned()) }
}

/// The result for a task whose completion channel closed.
pub fn dropped_result(task_id: String) -> (r: TaskResult)
    ensures
        r.task_id@ == task_id@,
        r.status@ == "failed"@,
        r.output is None,
        r.error matches Some(e) && e@ == "Receiver dropped"@,
{
    TaskResult { task_id, status: "failed".to_owned(), output: None, error: Some("Receiver dropped".to_owned()) }
}

/// The result for a task that did not finish in time.
pub fn timeout_result(task_id: String, timeout_secs: u64) -> (r: TaskResult)
    ensures
        r.task_id@ == task_id@,
        r.status@ == "timeout"@,
        r.output is None,
        r.error matches Some(e) && e@ == "Timeout after "@ + decimal(timeout_secs as nat) + "s"@,
{
    let mut m = chars_of("Timeout after ");
    append_chars(&mut m, &decimal_vec(timeout_secs));
    append_str(&mut m, "s");
    TaskResult { task_id, status: "timeout".to_owned(), output: None, error: Some(string_of(&m)) }
}

/// The join report over the collected results: counts of completed, failed
/// and not-found results (timeouts count in none), and success when there
/// is no failed and no missing task.
pub fn join_report(results: Vec<TaskResult>) -> (r: JoinResult)
    ensures
        r.total == results@.len(),
        r.succeeded == count_status(results@.map_values(|t: TaskResult| t.status@), "completed"@),
        r.failed == count_status(results@.map_values(|t: TaskResult| t.status@), "failed"@),
        r.not_found == count_status(results@.map_values(|t: TaskResult| t.status@), "not_found"@),
        r.all_succeeded == (r.failed == 0 && r.not_found == 0),
        r.completed@ == results@,
{
    let mut statuses: Vec<String> = Vec::new();
    let mut i: usize = 0;
    while i < results.len()
        invariant
            i <= results.len(),
            statuses@.map_values(|s: String| s@) == results@.map_values(|t: TaskResult| t.status@).take(i as int),
        decreases results.len() - i,
    {
        let s = results[i].status.clone();
        proof {
            assert(statuses@.push(s).map_values(|s: String| s@) =~= statuses@.map_values(|s: String| s@).push(s@));
            assert(results@.map_values(|t: TaskResult| t.status@).take(i + 1) =~= results@.map_values(
                |t: TaskResult| t.status@,
            ).take(i as int).push(results@[i as int].status@));
        }
        statuses.push(s);
        i = i + 1;
    }
    assert(results@.map_values(|t: TaskResult| t.status@).take(results@.len() as int) =~= results@.map_values(
        |t: TaskResult| t.status@,
    ));
    let succeeded = count_with_status(statuses.as_slice(), "completed");
    let failed = count_with_status(statuses.as_slice(), "failed");
    let not_found = count_with_status(statuses.as_slice(), "not_found");
    let total = results.len();
    JoinResult { completed: results, all_succeeded: failed == 0 && not_found == 0, total, succeeded, failed, not_found }
}

/// The join tool.
#[derive(Debug)]
pub struct JoinTool;

impl JoinTool {
    pub fn new() -> (r: Self) {
        JoinTool
    }

    /// The tool's registered name.
    pub fn name(&self) -> (r: &'static str)
        ensures
            r@ == "join"@,
    {
        "join"
    }
}

} // verus!
