//! Argument types and small decisions of the remaining tools: language
//! server queries, the todo list, delayed pings, skills, and the web
//! crawling service.
use vstd::prelude::*;
use crate::text::{chars_eq, chars_of};

verus! {

// ---------------------------------------------------------------------------
// Language server queries
// ---------------------------------------------------------------------------

/// A language server query.
#[derive(Clone, Copy, PartialEq, Eq, Structural, Debug)]
pub enum LspOperation {
    GoToDefinition,
    FindReferences,
    Hover,
    DocumentSymbol,
    WorkspaceSymbol,
    GoToImplementation,
    PrepareCallHierarchy,
    IncomingCalls,
    OutgoingCalls,
    Diagnostics,
}

/// Arguments of the language server tool; positions are 1-based.
#[derive(Debug)]
pub struct LspArgs {
    pub operation: LspOperation,
    pub file_path: String,
    pub line: Option<u32>,
    pub character: Option<u32>,
    pub query: Option<String>,
}

impl LspArgs {
    /// The 0-based position of a 1-based `line` and `character`; both are
    /// required and must be at least 1.
    pub fn position(&self) -> (r: Result<(u32, u32), String>)
        ensures
            self.line is None ==> (r matches Err(e) && e@ == "'line' is required for this operation"@),
            (self.line is Some && self.character is None) ==> (r matches Err(e) && e@ == "'character' is required for this operation"@),
            (self.line == Some(0u32) && self.character is Some) ==> (r matches Err(e) && e@ == "'line' must be >= 1 (1-based)"@),
            (self.line matches Some(l) && l >= 1 && self.character == Some(0u32)) ==> (r matches Err(e) && e@ == "'character' must be >= 1 (1-based)"@),
            (self.line matches Some(l) && l >= 1 && (self.character matches Some(c) && c >= 1)) ==> r == Ok::<(u32, u32), String>(
                ((self.line->0 - 1) as u32, (self.character->0 - 1) as u32),
            ),
    {
        let line = match self.line {
            Some(l) => l,
            None => {
                return Err("'line' is required for this operation".to_owned());
            },
        };
        let character = match self.character {
            Some(c) => c,
            None => {
                return Err("'character' is required for this operation".to_owned());
            },
        };
        if line == 0 {
            return Err("'line' must be >= 1 (1-based)".to_owned());
        }
        if character == 0 {
            return Err("'character' must be >= 1 (1-based)".to_owned());
        }
        Ok((line - 1, character - 1))
    }

    /// The file queried: the path as given when it is absolute, else the
    /// path under the working directory `cwd` (empty when it is unknown).
    pub fn resolve_file_path(&self, cwd: &str) -> (r: String)
        ensures
            r@ == if crate::read::path_is_absolute(self.file_path@) {
                self.file_path@
            } else {
                crate::similar_files::joined_path(cwd@, self.file_path@)
            },
    {
        if crate::read::is_absolute(self.file_path.as_str()) {
            self.file_path.clone()
        } else {
            crate::similar_files::join_path(cwd, self.file_path.as_str())
        }
    }
}

// ---------------------------------------------------------------------------
// Todo list
// ---------------------------------------------------------------------------

/// One todo item.
#[derive(Debug)]
pub struct TodoItemArg {
    pub content: String,
    pub status: String,
    pub priority: String,
}

/// Arguments of the todo-write tool: the whole new list.
#[derive(Debug)]
pub struct TodoWriteArgs {
    pub todos: Vec<TodoItemArg>,
}

/// Arguments of the todo-read tool.
#[derive(Debug)]
pub struct TodoReadArgs {}

/// Result of the todo-write tool.
#[derive(Debug)]
pub struct TodoWriteResult {
    pub ok: bool,
    pub incomplete_count: usize,
}

/// Result of the todo-read tool.
#[derive(Debug)]
pub struct TodoReadResult {
    pub todos: Vec<TodoItemArg>,
    pub total: usize,
    pub incomplete_count: usize,
}

/// Number of items not done: not `completed`, and, when
/// `count_cancelled_done` is set, not `cancelled` either.
pub open spec fn open_items(statuses: Seq<Seq<char>>, count_cancelled_done: bool) -> nat
    decreases statuses.len(),
{
    if statuses.len() == 0 {
        0
    } else {
        let s = statuses.last();
        let done = s == "completed"@ || (count_cancelled_done && s == "cancelled"@);
        open_items(statuses.drop_last(), count_cancelled_done) + if done { 0nat } else { 1nat }
    }
}

pub open spec fn todo_statuses(todos: Seq<TodoItemArg>) -> Seq<Seq<char>> {
    todos.map_values(|t: TodoItemArg| t.status@)
}

fn count_open(todos: &[TodoItemArg], count_cancelled_done: bool) -> (r: usize)
    ensures
        r == open_items(todo_statuses(todos@), count_cancelled_done),
        r <= todos@.len(),
{
    let ghost sv = todo_statuses(todos@);
    let completed = chars_of("completed");
    let cancelled = chars_of("cancelled");
    let mut n: usize = 0;
    let mut i: usize = 0;
    assert(sv.take(0) =~= Seq::<Seq<char>>::empty());
    while i < todos.len()
        invariant
            i <= todos.len(),
            sv == todo_statuses(todos@),
            completed@ == "completed"@,
            cancelled@ == "cancelled"@,
            n <= i,
            n == open_items(sv.take(i as int), count_cancelled_done),
        decreases todos.len() - i,
    {
        assert(sv.take(i + 1).drop_last() =~= sv.take(i as int));
        let st = chars_of(todos[i].status.as_str());
        let done = chars_eq(&st, &completed) || (count_cancelled_done && chars_eq(&st, &cancelled));
        if !done {
            n = n + 1;
        }
        i = i + 1;
    }
    assert(sv.take(todos@.len() as int) =~= sv);
    n
}

/// Items still to do when writing: neither completed nor cancelled.
pub fn write_incomplete_count(todos: &[TodoItemArg]) -> (r: usize)
    ensures
        r == open_items(todo_statuses(todos@), true),
{
    count_open(todos, true)
}

/// Items still to do when reading: not completed.
pub fn read_incomplete_count(todos: &[TodoItemArg]) -> (r: usize)
    ensures
        r == open_items(todo_statuses(todos@), false),
{
    count_open(todos, false)
}

/// The todo list of a conversation.
#[derive(Debug)]
pub struct TodoList {
    pub items: Vec<TodoItemArg>,
}

impl TodoList {
    /// An empty list.
    pub fn new() -> (r: Self)
        ensures
            r.items@.len() == 0,
    {
        TodoList { items: Vec::new() }
    }

    /// Replaces the whole list, and reports how many items are left to do.
    pub fn write(&mut self, todos: Vec<TodoItemArg>) -> (r: TodoWriteResult)
        ensures
            final(self).items@ == todos@,
            r.ok,
            r.incomplete_count == open_items(todo_statuses(todos@), true),
    {
        let incomplete_count = count_open(todos.as_slice(), true);
        self.items = todos;
        TodoWriteResult { ok: true, incomplete_count }
    }

    /// The list as last written, with its size and the items not completed.
    pub fn read(&self) -> (r: (usize, usize))
        ensures
            r.0 == self.items@.len(),
            r.1 == open_items(todo_statuses(self.items@), false),
    {
        (self.items.len(), count_open(self.items.as_slice(), false))
    }
}

/// The count reported on writing (completed and cancelled items done)
/// never exceeds the count reported on reading (only completed items done).
pub proof fn lemma_write_count_at_most_read_count(s: Seq<Seq<char>>)
    ensures
        open_items(s, true) <= open_items(s, false),
    decreases s.len(),
{
    if s.len() > 0 {
        lemma_write_count_at_most_read_count(s.drop_last());
    }
}

// ---------------------------------------------------------------------------
// Skills
// ---------------------------------------------------------------------------

/// Arguments of the skill tool.
#[derive(Debug)]
pub struct SkillToolArgs {
    pub name: String,
    pub args: Option<String>,
}

} // verus!
