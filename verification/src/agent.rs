//! Subagent invocation: the per-conversation task budget, the request
//! checks made before a subagent is started, and the tool's result text.
use vstd::prelude::*;
use crate::text::{append_chars, append_str, chars_of, decimal, decimal_vec, join, join_vec, string_of, replaced_all, replace_all_exec, views, lemma_views_push};

verus! {

// ---------------------------------------------------------------------------
// Task budget
// ---------------------------------------------------------------------------

/// Tracks and limits the total number of subagent tasks spawned within a
/// conversation.
#[derive(Debug)]
pub struct TaskBudget {
    spawned: usize,
    max_tasks: usize,
}

/// Error when no slot is left.
pub open spec fn exhausted_msg(used: nat, max: nat) -> Seq<char> {
    "Task budget exhausted: "@ + decimal(used) + " of "@ + decimal(max)
        + " task slots used. Wait for existing tasks to complete before spawning more."@
}

/// Error when fewer than `n` slots are left.
pub open spec fn insufficient_msg(n: nat, left: nat, max: nat) -> Seq<char> {
    "Cannot spawn "@ + decimal(n) + " tasks: only "@ + decimal(left) + " of "@ + decimal(max)
        + " slots remaining."@
}

impl View for TaskBudget {
    /// `(used, max)`.
    type V = (nat, nat);

    closed spec fn view(&self) -> (nat, nat) {
        (self.spawned as nat, self.max_tasks as nat)
    }
}

impl TaskBudget {
    /// No more slots are used than there are.
    pub closed spec fn wf(&self) -> bool {
        self.spawned <= self.max_tasks
    }

    /// A budget of `max_tasks` slots, none used.
    pub fn new(max_tasks: usize) -> (r: Self)
        ensures
            r.wf(),
            r@ == (0nat, max_tasks as nat),
    {
        TaskBudget { spawned: 0, max_tasks }
    }

    /// Takes one slot; when none is left the budget is unchanged and the
    /// error says how many are used.
    pub fn try_acquire(&mut self) -> (r: Result<(), String>)
        requires
            old(self).wf(),
        ensures
            final(self).wf(),
            old(self)@.0 < old(self)@.1 ==> r is Ok && final(self)@ == ((old(self)@.0 + 1) as nat, old(self)@.1),
            old(self)@.0 >= old(self)@.1 ==> final(self)@ == old(self)@ && (r matches Err(e) && e@ == exhausted_msg(
                old(self)@.0,
                old(self)@.1,
            )),
    {
        if self.spawned >= self.max_tasks {
            let mut msg = chars_of("Task budget exhausted: ");
            append_chars(&mut msg, &decimal_vec(self.spawned as u64));
            append_str(&mut msg, " of ");
            append_chars(&mut msg, &decimal_vec(self.max_tasks as u64));
            append_str(&mut msg, " task slots used. Wait for existing tasks to complete before spawning more.");
            return Err(string_of(&msg));
        }
        self.spawned = self.spawned + 1;
        Ok(())
    }

    /// Takes `n` slots at once; when fewer are left the budget is unchanged
    /// and the error says how many remain.
    pub fn try_acquire_many(&mut self, n: usize) -> (r: Result<(), String>)
        requires
            old(self).wf(),
        ensures
            final(self).wf(),
            old(self)@.0 + n <= old(self)@.1 ==> r is Ok && final(self)@ == ((old(self)@.0 + n) as nat, old(self)@.1),
            old(self)@.0 + n > old(self)@.1 ==> final(self)@ == old(self)@ && (r matches Err(e) && e@ == insufficient_msg(
                n as nat,
                (old(self)@.1 - old(self)@.0) as nat,
                old(self)@.1,
            )),
    {
        if n > self.max_tasks - self.spawned {
            let mut msg = chars_of("Cannot spawn ");
            append_chars(&mut msg, &decimal_vec(n as u64));
            append_str(&mut msg, " tasks: only ");
            append_chars(&mut msg, &decimal_vec((self.max_tasks - self.spawned) as u64));
            append_str(&mut msg, " of ");
            append_chars(&mut msg, &decimal_vec(self.max_tasks as u64));
            append_str(&mut msg, " slots remaining.");
            return Err(string_of(&msg));
        }
        self.spawned = self.spawned + n;
        Ok(())
    }

    /// Slots left.
    pub fn remaining(&self) -> (r: usize)
        requires
            self.wf(),
        ensures
            r == self@.1 - self@.0,
    {
        self.max_tasks - self.spawned
    }

    /// Slots used.
    pub fn used(&self) -> (r: usize)
        ensures
            r == self@.0,
    {
        self.spawned
    }
}

/// A budget never has more slots used than it has slots, so used and
/// remaining slots add up to the maximum.
pub proof fn lemma_budget_within_max(b: TaskBudget)
    requires
        b.wf(),
    ensures
        b@.0 <= b@.1,
        (b@.1 - b@.0) + b@.0 == b@.1,
{
}

// ---------------------------------------------------------------------------
// Subagent requests
// ---------------------------------------------------------------------------

/// Result of a completed subagent run.
#[derive(Debug)]
pub struct AgentTaskResult {
    pub task_id: String,
    pub output: String,
}

/// Handle of a background task.
#[derive(Debug)]
pub struct AgentTaskHandle {
    pub task_id: String,
}

/// Notification sent when a background task completes.
#[derive(Debug)]
pub struct AgentTaskNotification {
    pub task_id: String,
    pub description: String,
    pub output: Result<String, String>,
}

/// Parameters of the sub-agent tool.
#[derive(Debug)]
pub struct SubAgentToolParams {
    pub description: String,
    pub prompt: String,
    pub subagent_name: String,
    pub run_in_background: bool,
    pub task_id: Option<String>,
}

/// The tool that invokes subagents.
#[derive(Debug)]
pub struct SubAgentTool {
    pub description: String,
}

/// The description template; `{agents}` stands for the list of subagents.
pub open spec fn sub_agent_template() -> Seq<char> {
    "Launch a subagent that works on a task autonomously and reports back. Available subagents:\n{agents}\n\nSet runInBackground to continue working while the subagent runs; its result arrives in a later turn."@
}

/// One line per subagent, `- name: description`.
pub open spec fn agent_line(a: (Seq<char>, Seq<char>)) -> Seq<char> {
    "- "@ + a.0 + ": "@ + a.1
}

/// The subagent list of the description: `(none)` when there is none.
pub open spec fn agent_list(agents: Seq<(Seq<char>, Seq<char>)>) -> Seq<char> {
    if agents.len() == 0 {
        "(none)"@
    } else {
        join(agents.map_values(|a: (Seq<char>, Seq<char>)| agent_line(a)), "\n"@)
    }
}

pub open spec fn pairs_view(v: Seq<(String, String)>) -> Seq<(Seq<char>, Seq<char>)> {
    v.map_values(|p: (String, String)| (p.0@, p.1@))
}

impl SubAgentTool {
    /// A tool with the static description.
    pub fn new() -> (r: Self)
        ensures
            r.description@.len() == 0,
    {
        SubAgentTool { description: String::new() }
    }

    /// The tool's registered name.
    pub fn name(&self) -> (r: &'static str)
        ensures
            r@ == "sub_agent"@,
    {
        "sub_agent"
    }

    /// What the tool does, for the model: the stored description, or the
    /// static template when none was stored.
    pub fn description(&self) -> (r: &str)
        ensures
            self.description@.len() == 0 ==> r@ == sub_agent_template(),
            self.description@.len() > 0 ==> r@ == self.description@,
    {
        if self.description.as_str().is_empty() {
            "Launch a subagent that works on a task autonomously and reports back. Available subagents:\n{agents}\n\nSet runInBackground to continue working while the subagent runs; its result arrives in a later turn."
        } else {
            self.description.as_str()
        }
    }

    /// The description with the list of available subagents in place of
    /// `{agents}`.
    pub fn build_description(agents: &[(String, String)]) -> (r: String)
        ensures
            r@ == replaced_all(sub_agent_template(), "{agents}"@, agent_list(pairs_view(agents@))),
    {
        let template = chars_of(
            "Launch a subagent that works on a task autonomously and reports back. Available subagents:\n{agents}\n\nSet runInBackground to continue working while the subagent runs; its result arrives in a later turn.",
        );
        let list = if agents.len() == 0 {
            chars_of("(none)")
        } else {
            let mut lines: Vec<Vec<char>> = Vec::new();
            let ghost av = pairs_view(agents@);
            let mut i: usize = 0;
            while i < agents.len()
                invariant
                    i <= agents.len(),
                    av == pairs_view(agents@),
                    views(lines@) == av.map_values(|a: (Seq<char>, Seq<char>)| agent_line(a)).take(i as int),
                decreases agents.len() - i,
            {
                let mut l = chars_of("- ");
                append_str(&mut l, agents[i].0.as_str());
                append_str(&mut l, ": ");
                append_str(&mut l, agents[i].1.as_str());
                proof {
                    lemma_views_push(lines@, l);
                    assert(av.map_values(|a: (Seq<char>, Seq<char>)| agent_line(a)).take(i + 1) =~= av.map_values(
                        |a: (Seq<char>, Seq<char>)| agent_line(a),
                    ).take(i as int).push(l@));
                }
                lines.push(l);
                i = i + 1;
            }
            assert(av.map_values(|a: (Seq<char>, Seq<char>)| agent_line(a)).take(agents@.len() as int) =~= av.map_values(
                |a: (Seq<char>, Seq<char>)| agent_line(a),
            ));
            join_vec(&lines, &chars_of("\n"))
        };
        let out = replace_all_exec(&template, &chars_of("{agents}"), &list);
        string_of(&out)
    }
}

/// Error when the nesting limit is reached.
pub open spec fn depth_msg(max_depth: nat) -> Seq<char> {
    "Maximum subagent depth ("@ + decimal(max_depth) + ") reached"@
}

/// Error when no subagent is configured.
pub open spec fn no_subagents_msg() -> Seq<char> {
    "No subagents available. This agent has no subagents configured."@
}

/// Error for a name that is not among the available subagents.
pub open spec fn unknown_subagent_msg(name: Seq<char>, available: Seq<(Seq<char>, Seq<char>)>) -> Seq<char> {
    "Unknown subagent '"@ + name + "'. Available: ["@ + join(
        available.map_values(|a: (Seq<char>, Seq<char>)| a.0),
        ", "@,
    ) + "]"@
}

/// `name` is one of the available subagents.
pub open spec fn has_subagent(available: Seq<(Seq<char>, Seq<char>)>, name: Seq<char>) -> bool {
    exists|i: int| 0 <= i < available.len() && #[trigger] available[i].0 == name
}

/// The checks made before a subagent is started, in order: a budget slot
/// must be free (its error returned when none is left), the depth limit,
/// and the subagent's name. The slot is taken only when every check
/// passes: a refused request spawns nothing and uses no slot.
#[verifier::loop_isolation(false)]
pub fn check_subagent_request(
    budget: &mut TaskBudget,
    depth: usize,
    max_depth: usize,
    available: &[(String, String)],
    subagent_name: &str,
) -> (r: Result<(), String>)
    requires
        old(budget).wf(),
    ensures
        final(budget).wf(),
        old(budget)@.0 >= old(budget)@.1 ==> final(budget)@ == old(budget)@ && (r matches Err(e) && e@
            == exhausted_msg(old(budget)@.0, old(budget)@.1)),
        old(budget)@.0 < old(budget)@.1 ==> (r is Ok ==> final(budget)@ == ((old(budget)@.0 + 1) as nat, old(budget)@.1))
            && (r is Err ==> final(budget)@ == old(budget)@) && (
        if depth >= max_depth {
            r matches Err(e) && e@ == depth_msg(max_depth as nat)
        } else if has_subagent(pairs_view(available@), subagent_name@) {
            r is Ok
        } else if available.len() == 0 {
            r matches Err(e) && e@ == no_subagents_msg()
        } else {
            r matches Err(e) && e@ == unknown_subagent_msg(subagent_name@, pairs_view(available@))
        }),
{
    if budget.remaining() == 0 {
        return budget.try_acquire();
    }
    if depth >= max_depth {
        let mut msg = chars_of("Maximum subagent depth (");
        append_chars(&mut msg, &decimal_vec(max_depth as u64));
        append_str(&mut msg, ") reached");
        return Err(string_of(&msg));
    }
    let ghost av = pairs_view(available@);
    let name = chars_of(subagent_name);
    let mut i: usize = 0;
    while i < available.len()
        invariant
            i <= available.len(),
            av == pairs_view(available@),
            name@ == subagent_name@,
            forall|k: int| 0 <= k < i ==> av[k].0 != subagent_name@,
            budget.wf(),
            budget@ == old(budget)@,
            old(budget)@.0 < old(budget)@.1,
        decreases available.len() - i,
    {
        let n = chars_of(available[i].0.as_str());
        if crate::text::chars_eq(&n, &name) {
            assert(av[i as int].0 == subagent_name@);
            return budget.try_acquire();
        }
        i = i + 1;
    }
    if available.len() == 0 {
        return Err("No subagents available. This agent has no subagents configured.".to_owned());
    }
    let mut names: Vec<Vec<char>> = Vec::new();
    let mut k: usize = 0;
    while k < available.len()
        invariant
            k <= available.len(),
            av == pairs_view(available@),
            views(names@) == av.map_values(|a: (Seq<char>, Seq<char>)| a.0).take(k as int),
        decreases available.len() - k,
    {
        let n = chars_of(available[k].0.as_str());
        proof {
            lemma_views_push(names@, n);
            assert(av.map_values(|a: (Seq<char>, Seq<char>)| a.0).take(k + 1) =~= av.map_values(
                |a: (Seq<char>, Seq<char>)| a.0,
            ).take(k as int).push(n@));
        }
        names.push(n);
        k = k + 1;
    }
    assert(av.map_values(|a: (Seq<char>, Seq<char>)| a.0).take(available@.len() as int) =~= av.map_values(
        |a: (Seq<char>, Seq<char>)| a.0,
    ));
    let mut msg = chars_of("Unknown subagent '");
    append_str(&mut msg, subagent_name);
    append_str(&mut msg, "'. Available: [");
    append_chars(&mut msg, &join_vec(&names, &chars_of(", ")));
    append_str(&mut msg, "]");
    Err(string_of(&msg))
}

/// The text returned for a foreground run.
pub open spec fn foreground_text(task_id: Seq<char>, output: Seq<char>) -> Seq<char> {
    "task_id: "@ + task_id + " (for resuming)\n\n<task_result>\n"@ + output + "\n</task_result>"@
}

/// The tool's text for a completed foreground run.
pub fn format_foreground_result(result: &AgentTaskResult) -> (r: String)
    ensures
        r@ == foreground_text(result.task_id@, result.output@),
{
    let mut out = chars_of("task_id: ");
    append_str(&mut out, result.task_id.as_str());
    append_str(&mut out, " (for resuming)\n\n<task_result>\n");
    append_str(&mut out, result.output.as_str());
    append_str(&mut out, "\n</task_result>");
    string_of(&out)
}

} // verus!
