//! Tracking of background tasks for the join tool: the results of finished
//! tasks, and the parties waiting for tasks that have not finished yet.
//!
//! The results live in a `dashmap::DashMap` keyed by task id. A waiter is
//! whatever the caller uses to deliver a result (a channel's sending end);
//! the registry only keeps them and hands them back when the task finishes.
use vstd::prelude::*;

use crate::agent_tools::{completion_result, TaskResult};
use crate::text::{chars_eq, chars_of};
use dashmap::DashMap;

verus! {

/// The concurrent map of the `dashmap` crate, carried through opaque.
#[verifier::external_type_specification]
#[verifier::external_body]
#[verifier::reject_recursive_types(K)]
#[verifier::reject_recursive_types(V)]
#[verifier::reject_recursive_types(S)]
pub struct ExDashMap<K, V, S>(dashmap::DashMap<K, V, S>);

/// A task result as its texts: task id, status, output and error.
pub open spec fn result_view(r: TaskResult) -> (Seq<char>, Seq<char>, Option<Seq<char>>, Option<Seq<char>>) {
    (
        r.task_id@,
        r.status@,
        match r.output {
            Some(o) => Some(o@),
            None => None,
        },
        match r.error {
            Some(e) => Some(e@),
            None => None,
        },
    )
}

/// What a map of task results holds: each task id's result.
pub uninterp spec fn stored_results(m: DashMap<String, TaskResult>) -> Map<Seq<char>, (Seq<char>, Seq<char>, Option<Seq<char>>, Option<Seq<char>>)>;

/// Calls `DashMap::new`: an empty map.
#[verifier::external_body]
fn results_new() -> (r: DashMap<String, TaskResult>)
    ensures
        stored_results(r).dom().is_empty(),
{
    DashMap::new()
}

/// Calls `DashMap::insert`: the key now maps to the value, replacing an
/// earlier one; the other keys keep theirs.
#[verifier::external_body]
fn results_insert(m: &mut DashMap<String, TaskResult>, key: String, value: TaskResult)
    ensures
        stored_results(*final(m)) == stored_results(*old(m)).insert(key@, result_view(value)),
{
    m.insert(key, value);
}

/// Calls `DashMap::get` and clones the value found.
#[verifier::external_body]
fn results_get(m: &DashMap<String, TaskResult>, key: &str) -> (r: Option<TaskResult>)
    ensures
        match r {
            Some(v) => stored_results(*m).contains_key(key@) && stored_results(*m)[key@] == result_view(v),
            None => !stored_results(*m).contains_key(key@),
        },
{
    m.get(key).map(|e| e.value().clone())
}

/// Results of finished tasks and waiters of unfinished ones.
pub struct TaskRegistry<W> {
    completed: DashMap<String, TaskResult>,
    pending: Vec<(String, Vec<W>)>,
}

/// The waiters of the task `id`.
pub open spec fn waiters_for<W>(p: Seq<(Seq<char>, Seq<W>)>, id: Seq<char>) -> Seq<W>
    decreases p.len(),
{
    if p.len() == 0 {
        seq![]
    } else if p[0].0 == id {
        p[0].1
    } else {
        waiters_for(p.drop_first(), id)
    }
}

/// The results of the listed tasks that finished, in the order listed.
pub open spec fn results_for(
    c: Map<Seq<char>, (Seq<char>, Seq<char>, Option<Seq<char>>, Option<Seq<char>>)>,
    ids: Seq<Seq<char>>,
) -> Seq<(Seq<char>, Seq<char>, Option<Seq<char>>, Option<Seq<char>>)>
    decreases ids.len(),
{
    if ids.len() == 0 {
        seq![]
    } else {
        let rest = results_for(c, ids.drop_last());
        if c.contains_key(ids.last()) {
            rest.push(c[ids.last()])
        } else {
            rest
        }
    }
}

/// No task id occurs twice among the waiting lists.
pub open spec fn unique_pending<W>(p: Seq<(Seq<char>, Seq<W>)>) -> bool {
    forall|i: int, j: int| 0 <= i < j < p.len() ==> p[i].0 != p[j].0
}

/// The result a finished task is recorded with: `completed` with its
/// output, or `failed` with its error.
pub open spec fn is_completion(r: TaskResult, id: Seq<char>, output: Result<String, String>) -> bool {
    &&& r.task_id@ == id
    &&& match output {
        Ok(o) => r.status@ == "completed"@ && (r.output matches Some(x) && x@ == o@) && r.error is None,
        Err(e) => r.status@ == "failed"@ && r.output is None && (r.error matches Some(x) && x@ == e@),
    }
}

/// An identical copy of an optional string.
fn copy_opt(o: &Option<String>) -> (r: Option<String>)
    ensures
        r == *o,
{
    match o {
        Some(s) => Some(s.clone()),
        None => None,
    }
}

/// An identical copy of a task result.
pub fn copy_result(t: &TaskResult) -> (r: TaskResult)
    ensures
        r == *t,
{
    TaskResult {
        task_id: t.task_id.clone(),
        status: t.status.clone(),
        output: copy_opt(&t.output),
        error: copy_opt(&t.error),
    }
}

impl<W> TaskRegistry<W> {
    /// The results of finished tasks, by task id.
    pub closed spec fn results(&self) -> Map<Seq<char>, (Seq<char>, Seq<char>, Option<Seq<char>>, Option<Seq<char>>)> {
        stored_results(self.completed)
    }

    /// The waiters, by task id.
    pub closed spec fn waiting(&self) -> Seq<(Seq<char>, Seq<W>)> {
        self.pending@.map_values(|e: (String, Vec<W>)| (e.0@, e.1@))
    }

    /// Well-formed: each task id has at most one waiting list.
    pub open spec fn wf(&self) -> bool {
        unique_pending(self.waiting())
    }

    /// No tasks.
    pub fn new() -> (r: Self)
        ensures
            r.wf(),
            r.results() == Map::<Seq<char>, (Seq<char>, Seq<char>, Option<Seq<char>>, Option<Seq<char>>)>::empty(),
            r.waiting() == Seq::<(Seq<char>, Seq<W>)>::empty(),
    {
        let r = TaskRegistry { completed: results_new(), pending: Vec::new() };
        assert(r.waiting() =~= Seq::<(Seq<char>, Seq<W>)>::empty());
        r
    }

    /// Position of the waiting list of `id`.
    fn pending_position(&self, id: &[char]) -> (r: Option<usize>)
        ensures
            match r {
                Some(i) => i < self.waiting().len() && self.waiting()[i as int].0 == id@ && forall|j: int|
                    0 <= j < i ==> self.waiting()[j].0 != id@,
                None => forall|j: int| 0 <= j < self.waiting().len() ==> self.waiting()[j].0 != id@,
            },
    {
        let mut i: usize = 0;
        while i < self.pending.len()
            invariant
                i <= self.pending.len(),
                self.waiting().len() == self.pending@.len(),
                forall|j: int| 0 <= j < i ==> self.waiting()[j].0 != id@,
            decreases self.pending.len() - i,
        {
            let c = chars_of(self.pending[i].0.as_str());
            proof {
                assert(self.waiting()[i as int] == (self.pending@[i as int].0@, self.pending@[i as int].1@));
            }
            if chars_eq(&c, id) {
                return Some(i);
            }
            i = i + 1;
        }
        None
    }

    /// Wait for the task `id` with `waiter`. If it has finished, its
    /// result is handed back with the waiter at once; otherwise the waiter
    /// joins the task's waiting list.
    pub fn register(&mut self, task_id: String, waiter: W) -> (r: Option<(TaskResult, W)>)
        requires
            old(self).wf(),
        ensures
            final(self).wf(),
            final(self).results() == old(self).results(),
            old(self).results().contains_key(task_id@) ==> (r matches Some((res, w)) && result_view(res)
                == old(self).results()[task_id@] && w == waiter && final(self).waiting() == old(self).waiting()),
            !old(self).results().contains_key(task_id@) ==> (r is None && waiters_for(final(self).waiting(), task_id@)
                == waiters_for(old(self).waiting(), task_id@).push(waiter) && forall|other: Seq<char>|
                other != task_id@ ==> waiters_for(final(self).waiting(), other) == waiters_for(
                    old(self).waiting(),
                    other,
                )),
    {
        match results_get(&self.completed, task_id.as_str()) {
            Some(res) => {
                return Some((res, waiter));
            },
            None => {},
        }
        let id = chars_of(task_id.as_str());
        let ghost old_w = self.waiting();
        match self.pending_position(&id) {
            Some(i) => {
                let (name, mut ws) = self.pending.remove(i);
                ws.push(waiter);
                self.pending.insert(i, (name, ws));
                proof {
                    let nw = self.waiting();
                    assert(nw =~= old_w.update(i as int, (task_id@, old_w[i as int].1.push(waiter))));
                    lemma_waiters_update(old_w, i as int, old_w[i as int].1.push(waiter));
                    lemma_waiters_at(old_w, id@, i as int);
                    assert(unique_pending(nw)) by {
                        assert forall|a: int, b: int| 0 <= a < b < nw.len() implies nw[a].0 != nw[b].0 by {
                            assert(nw[a].0 == old_w[a].0);
                            assert(nw[b].0 == old_w[b].0);
                        }
                    }
                }
            },
            None => {
                let mut ws: Vec<W> = Vec::new();
                ws.push(waiter);
                self.pending.push((task_id, ws));
                proof {
                    let nw = self.waiting();
                    assert(nw =~= old_w.push((id@, seq![waiter])));
                    lemma_waiters_push(old_w, id@, seq![waiter]);
                    assert(waiters_for(old_w, id@) == Seq::<W>::empty()) by {
                        lemma_waiters_absent(old_w, id@);
                    }
                    assert(seq![waiter] =~= Seq::<W>::empty().push(waiter));
                }
            },
        }
        None
    }

    /// Record that the task `id` finished with `output`. The result is
    /// stored (replacing an earlier one) and returned with the waiters to
    /// notify, whose waiting list is dropped.
    pub fn complete(&mut self, task_id: String, output: Result<String, String>) -> (r: (TaskResult, Vec<W>))
        requires
            old(self).wf(),
        ensures
            final(self).wf(),
            is_completion(r.0, task_id@, output),
            final(self).results() == old(self).results().insert(task_id@, result_view(r.0)),
            r.1@ == waiters_for(old(self).waiting(), task_id@),
            waiters_for(final(self).waiting(), task_id@) == Seq::<W>::empty(),
            forall|other: Seq<char>|
                other != task_id@ ==> waiters_for(final(self).waiting(), other) == waiters_for(
                    old(self).waiting(),
                    other,
                ),
    {
        let id = chars_of(task_id.as_str());
        let key = task_id.clone();
        let result = completion_result(task_id, output);
        let stored = copy_result(&result);
        results_insert(&mut self.completed, key, stored);
        let ghost old_w = self.waiting();
        let waiters = match self.pending_position(&id) {
            Some(i) => {
                let (_, ws) = self.pending.remove(i);
                proof {
                    let nw = self.waiting();
                    assert(nw =~= old_w.remove(i as int));
                    lemma_waiters_at(old_w, id@, i as int);
                    lemma_waiters_remove(old_w, i as int);
                }
                ws
            },
            None => {
                proof {
                    lemma_waiters_absent(old_w, id@);
                }
                Vec::new()
            },
        };
        (result, waiters)
    }

    /// The result of the task `id`, if it finished.
    pub fn is_completed(&self, task_id: &str) -> (r: Option<TaskResult>)
        ensures
            match r {
                Some(res) => self.results().contains_key(task_id@) && result_view(res) == self.results()[task_id@],
                None => !self.results().contains_key(task_id@),
            },
    {
        results_get(&self.completed, task_id)
    }

    /// The results of the listed tasks that finished, in the order listed.
    pub fn get_completed(&self, task_ids: &[String]) -> (r: Vec<TaskResult>)
        ensures
            r@.map_values(|t: TaskResult| result_view(t)) == results_for(
                self.results(),
                task_ids@.map_values(|s: String| s@),
            ),
    {
        let ghost ids = task_ids@.map_values(|s: String| s@);
        let mut out: Vec<TaskResult> = Vec::new();
        let mut i: usize = 0;
        assert(ids.take(0) =~= Seq::<Seq<char>>::empty());
        assert(out@.map_values(|t: TaskResult| result_view(t)) =~= Seq::<(Seq<char>, Seq<char>, Option<Seq<char>>, Option<Seq<char>>)>::empty());
        while i < task_ids.len()
            invariant
                i <= task_ids.len(),
                ids == task_ids@.map_values(|s: String| s@),
                out@.map_values(|t: TaskResult| result_view(t)) == results_for(self.results(), ids.take(i as int)),
            decreases task_ids.len() - i,
        {
            proof {
                assert(ids.take(i + 1).drop_last() =~= ids.take(i as int));
                assert(ids.take(i + 1).last() == task_ids@[i as int]@);
            }
            match self.is_completed(task_ids[i].as_str()) {
                Some(res) => {
                    let ghost before = out@;
                    out.push(res);
                    assert(out@.map_values(|t: TaskResult| result_view(t)) =~= before.map_values(
                        |t: TaskResult| result_view(t),
                    ).push(result_view(res)));
                },
                None => {},
            }
            i = i + 1;
        }
        assert(ids.take(i as int) =~= ids);
        out
    }
}

/// The waiters of `id` are the list at `i` when no earlier one is `id`'s.
pub proof fn lemma_waiters_at<W>(p: Seq<(Seq<char>, Seq<W>)>, id: Seq<char>, i: int)
    requires
        0 <= i < p.len(),
        p[i].0 == id,
        forall|j: int| 0 <= j < i ==> p[j].0 != id,
    ensures
        waiters_for(p, id) == p[i].1,
    decreases i,
{
    if i > 0 {
        lemma_waiters_at(p.drop_first(), id, i - 1);
    }
}

/// No waiters of `id` when no list is `id`'s.
pub proof fn lemma_waiters_absent<W>(p: Seq<(Seq<char>, Seq<W>)>, id: Seq<char>)
    requires
        forall|j: int| 0 <= j < p.len() ==> p[j].0 != id,
    ensures
        waiters_for(p, id) == Seq::<W>::empty(),
    decreases p.len(),
{
    if p.len() > 0 {
        lemma_waiters_absent(p.drop_first(), id);
    }
}

/// Replacing the list at `i` changes the waiters of its task only.
pub proof fn lemma_waiters_update<W>(p: Seq<(Seq<char>, Seq<W>)>, i: int, ws: Seq<W>)
    requires
        unique_pending(p),
        0 <= i < p.len(),
    ensures
        waiters_for(p.update(i, (p[i].0, ws)), p[i].0) == ws,
        forall|other: Seq<char>|
            other != p[i].0 ==> waiters_for(p.update(i, (p[i].0, ws)), other) == waiters_for(p, other),
    decreases p.len(),
{
    let n = p.update(i, (p[i].0, ws));
    if i == 0 {
        assert(n.drop_first() =~= p.drop_first());
        assert forall|other: Seq<char>| other != p[i].0 implies waiters_for(n, other) == waiters_for(p, other) by {
            assert(n[0].0 == p[0].0);
        }
    } else {
        assert(n.drop_first() =~= p.drop_first().update(i - 1, (p[i].0, ws)));
        assert(unique_pending(p.drop_first())) by {
            assert forall|a: int, b: int| 0 <= a < b < p.drop_first().len() implies p.drop_first()[a].0
                != p.drop_first()[b].0 by {
                assert(p[a + 1].0 != p[b + 1].0);
            }
        }
        assert(p.drop_first()[i - 1] == p[i]);
        lemma_waiters_update(p.drop_first(), i - 1, ws);
        assert(p[0].0 != p[i].0);
        assert(n[0] == p[0]);
        assert forall|other: Seq<char>| other != p[i].0 implies waiters_for(n, other) == waiters_for(p, other) by {
            if p[0].0 != other {
                assert(waiters_for(n.drop_first(), other) == waiters_for(p.drop_first(), other));
            }
        }
    }
}

/// Appending a list for a task without one gives it those waiters and
/// changes no other task's.
pub proof fn lemma_waiters_push<W>(p: Seq<(Seq<char>, Seq<W>)>, id: Seq<char>, ws: Seq<W>)
    requires
        forall|j: int| 0 <= j < p.len() ==> p[j].0 != id,
        unique_pending(p),
    ensures
        waiters_for(p.push((id, ws)), id) == ws,
        forall|other: Seq<char>| other != id ==> waiters_for(p.push((id, ws)), other) == waiters_for(p, other),
        unique_pending(p.push((id, ws))),
    decreases p.len(),
{
    let n = p.push((id, ws));
    if p.len() > 0 {
        assert(n.drop_first() =~= p.drop_first().push((id, ws)));
        assert(unique_pending(p.drop_first())) by {
            assert forall|a: int, b: int| 0 <= a < b < p.drop_first().len() implies p.drop_first()[a].0
                != p.drop_first()[b].0 by {
                assert(p[a + 1].0 != p[b + 1].0);
            }
        }
        assert forall|j: int| 0 <= j < p.drop_first().len() implies p.drop_first()[j].0 != id by {
            assert(p[j + 1].0 != id);
        }
        lemma_waiters_push(p.drop_first(), id, ws);
        assert(n[0] == p[0]);
        assert forall|other: Seq<char>| other != id implies waiters_for(n, other) == waiters_for(p, other) by {
            if p[0].0 != other {
                assert(waiters_for(n.drop_first(), other) == waiters_for(p.drop_first(), other));
            }
        }
    } else {
        assert(n[0] == (id, ws));
        assert(n.drop_first() =~= Seq::<(Seq<char>, Seq<W>)>::empty());
        assert forall|other: Seq<char>| other != id implies waiters_for(n, other) == waiters_for(p, other) by {
            assert(waiters_for(n.drop_first(), other) == Seq::<W>::empty());
        }
    }
    assert forall|a: int, b: int| 0 <= a < b < n.len() implies n[a].0 != n[b].0 by {
        if b == p.len() {
            assert(n[a] == p[a]);
        }
    }
}

/// Removing the list at `i` leaves its task without waiters and changes no
/// other task's.
pub proof fn lemma_waiters_remove<W>(p: Seq<(Seq<char>, Seq<W>)>, i: int)
    requires
        unique_pending(p),
        0 <= i < p.len(),
    ensures
        waiters_for(p.remove(i), p[i].0) == Seq::<W>::empty(),
        forall|other: Seq<char>| other != p[i].0 ==> waiters_for(p.remove(i), other) == waiters_for(p, other),
        unique_pending(p.remove(i)),
    decreases p.len(),
{
    let n = p.remove(i);
    if i == 0 {
        assert(n =~= p.drop_first());
        assert forall|j: int| 0 <= j < n.len() implies n[j].0 != p[0].0 by {
            assert(p[0].0 != p[j + 1].0);
        }
        lemma_waiters_absent(n, p[0].0);
        assert forall|other: Seq<char>| other != p[i].0 implies waiters_for(n, other) == waiters_for(p, other) by {
        }
    } else {
        assert(n.drop_first() =~= p.drop_first().remove(i - 1));
        assert(unique_pending(p.drop_first())) by {
            assert forall|a: int, b: int| 0 <= a < b < p.drop_first().len() implies p.drop_first()[a].0
                != p.drop_first()[b].0 by {
                assert(p[a + 1].0 != p[b + 1].0);
            }
        }
        assert(p.drop_first()[i - 1] == p[i]);
        lemma_waiters_remove(p.drop_first(), i - 1);
        assert(p[0].0 != p[i].0);
        assert(n[0] == p[0]);
        assert forall|other: Seq<char>| other != p[i].0 implies waiters_for(n, other) == waiters_for(p, other) by {
            if p[0].0 != other {
                assert(waiters_for(n.drop_first(), other) == waiters_for(p.drop_first(), other));
            }
        }
    }
    assert forall|a: int, b: int| 0 <= a < b < n.len() implies n[a].0 != n[b].0 by {
        let a2 = if a < i { a } else { a + 1 };
        let b2 = if b < i { b } else { b + 1 };
        assert(n[a] == p[a2]);
        assert(n[b] == p[b2]);
    }
}

} // verus!
