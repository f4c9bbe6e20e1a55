use tools::agent::{check_subagent_request, format_foreground_result, AgentTaskResult, SubAgentTool, TaskBudget};
use tools::agent_tools::{
    check_self_agent_request, completion_result, join_report, not_found_result, parallel_summary, parallel_task_result,
    timeout_result, validate_parallel_request, SubAgentTask, TaskOutcome, SELF_AGENT_NAME,
};

#[test]
fn test_task_budget_basic_acquire() {
    let mut budget = TaskBudget::new(3);
    assert_eq!(budget.remaining(), 3);
    assert_eq!(budget.used(), 0);

    assert!(budget.try_acquire().is_ok());
    assert_eq!(budget.remaining(), 2);
    assert_eq!(budget.used(), 1);

    assert!(budget.try_acquire().is_ok());
    assert!(budget.try_acquire().is_ok());
    assert_eq!(budget.remaining(), 0);
    assert_eq!(budget.used(), 3);
}

#[test]
fn test_task_budget_exhaustion() {
    let mut budget = TaskBudget::new(2);
    assert!(budget.try_acquire().is_ok());
    assert!(budget.try_acquire().is_ok());

    let err = budget.try_acquire();
    assert!(err.is_err());
    assert!(err.unwrap_err().contains("Task budget exhausted"));
    assert_eq!(budget.used(), 2);
}

#[test]
fn test_task_budget_acquire_many_success() {
    let mut budget = TaskBudget::new(10);
    assert!(budget.try_acquire_many(5).is_ok());
    assert_eq!(budget.used(), 5);
    assert_eq!(budget.remaining(), 5);

    assert!(budget.try_acquire_many(5).is_ok());
    assert_eq!(budget.used(), 10);
    assert_eq!(budget.remaining(), 0);
}

#[test]
fn test_task_budget_acquire_many_insufficient() {
    let mut budget = TaskBudget::new(5);
    assert!(budget.try_acquire_many(3).is_ok());

    let err = budget.try_acquire_many(5);
    assert!(err.is_err());
    assert!(err.unwrap_err().contains("Cannot spawn 5 tasks"));
    assert_eq!(budget.used(), 3);
}

#[test]
fn test_task_budget_zero_max() {
    let mut budget = TaskBudget::new(0);
    assert_eq!(budget.remaining(), 0);
    assert!(budget.try_acquire().is_err());
}

#[test]
fn test_build_description_with_agents() {
    let agents = vec![
        ("coder".to_string(), "A coding agent".to_string()),
        ("explorer".to_string(), "An exploration agent".to_string()),
    ];
    let desc = SubAgentTool::build_description(&agents);
    assert!(desc.contains("- coder: A coding agent"));
    assert!(desc.contains("- explorer: An exploration agent"));
    assert!(!desc.contains("{agents}"));
}

#[test]
fn test_build_description_no_agents() {
    let desc = SubAgentTool::build_description(&[]);
    assert!(desc.contains("(none)"));
}

// ---------------------------------------------------------------------------
// Further cases
// ---------------------------------------------------------------------------

#[test]
fn budget_error_messages() {
    let mut budget = TaskBudget::new(1);
    assert!(budget.try_acquire().is_ok());
    assert_eq!(
        budget.try_acquire(),
        Err("Task budget exhausted: 1 of 1 task slots used. Wait for existing tasks to complete before spawning more.".to_string())
    );
    assert_eq!(
        budget.try_acquire_many(2),
        Err("Cannot spawn 2 tasks: only 0 of 1 slots remaining.".to_string())
    );
    assert_eq!(budget.used() + budget.remaining(), 1);
}

fn coder() -> Vec<(String, String)> {
    vec![("coder".to_string(), "A coding agent".to_string())]
}

#[test]
fn subagent_request_checks() {
    let mut budget = TaskBudget::new(50);
    assert_eq!(
        check_subagent_request(&mut budget, 0, 3, &[], "explorer"),
        Err("No subagents available. This agent has no subagents configured.".to_string())
    );
    assert_eq!(
        check_subagent_request(&mut budget, 0, 3, &coder(), "explorer"),
        Err("Unknown subagent 'explorer'. Available: [coder]".to_string())
    );
    assert_eq!(
        check_subagent_request(&mut budget, 3, 3, &coder(), "coder"),
        Err("Maximum subagent depth (3) reached".to_string())
    );
    assert_eq!(budget.used(), 0);
    assert_eq!(check_subagent_request(&mut budget, 0, 3, &coder(), "coder"), Ok(()));
    assert_eq!(budget.used(), 1);
}

#[test]
fn budget_of_one_allows_one_request() {
    let mut budget = TaskBudget::new(1);
    assert!(check_subagent_request(&mut budget, 0, 3, &coder(), "coder").is_ok());
    assert!(check_subagent_request(&mut budget, 0, 3, &coder(), "coder").unwrap_err().contains("Task budget exhausted"));
}

#[test]
fn foreground_result_text() {
    let r = AgentTaskResult { task_id: "t1".to_string(), output: "done".to_string() };
    assert_eq!(format_foreground_result(&r), "task_id: t1 (for resuming)\n\n<task_result>\ndone\n</task_result>");
}

#[test]
fn self_agent_checks() {
    let mut budget = TaskBudget::new(5);
    assert_eq!(check_self_agent_request(&mut budget, 2, 2), Err("Maximum agent depth (2) reached".to_string()));
    assert_eq!(budget.used(), 0);
    assert_eq!(check_self_agent_request(&mut budget, 0, 2), Ok(()));
    assert_eq!(budget.used(), 1);
    assert_eq!(SELF_AGENT_NAME, "__self__");
}

fn task(s: &str) -> SubAgentTask {
    SubAgentTask { description: "d".to_string(), prompt: "p".to_string(), subagent: s.to_string() }
}

#[test]
fn parallel_request_checks() {
    let avail = coder();
    assert_eq!(validate_parallel_request(&[], 0, 3, &avail), Err("No tasks provided".to_string()));
    let many: Vec<SubAgentTask> = (0..26).map(|_| task("coder")).collect();
    assert_eq!(validate_parallel_request(&many, 0, 3, &avail), Err("Maximum 25 tasks allowed".to_string()));
    assert_eq!(
        validate_parallel_request(&[task("coder")], 3, 3, &avail),
        Err("Maximum subagent depth (3) reached".to_string())
    );
    assert_eq!(
        validate_parallel_request(&[task("coder"), task("other")], 0, 3, &avail),
        Err("Unknown subagent 'other'. Available: [coder]".to_string())
    );
    assert_eq!(validate_parallel_request(&[task("coder")], 0, 3, &avail), Ok(()));
}

#[test]
fn parallel_results_and_summary() {
    let t = task("coder");
    let ok = parallel_task_result(&t, TaskOutcome::Completed { task_id: "x".to_string(), output: "o".to_string() }, 300);
    assert_eq!(ok.status, "completed");
    let to = parallel_task_result(&t, TaskOutcome::TimedOut, 300);
    assert_eq!(to.error, Some("Timeout after 300s".to_string()));
    let statuses = vec![ok.status, to.status, "failed".to_string()];
    assert_eq!(parallel_summary(&statuses), (3, 1, 2, false));
}

#[test]
fn join_results_and_report() {
    let a = completion_result("a".to_string(), Ok("out".to_string()));
    let b = completion_result("b".to_string(), Err("bad".to_string()));
    let c = not_found_result("c".to_string());
    let d = timeout_result("d".to_string(), 5);
    assert_eq!(d.error, Some("Timeout after 5s".to_string()));
    let report = join_report(vec![a, b, c, d]);
    assert_eq!((report.total, report.succeeded, report.failed, report.not_found), (4, 1, 1, 1));
    assert!(!report.all_succeeded);
}
