use vstd::prelude::*;
use crate::task::{
    TaskStatus, TaskPayload, TaskPayloadView, Task, TaskView, TaskFailure, TaskUpdate,
    status_rank, status_is_terminal, status_may_follow, is_delete_profile_payload,
    delete_profile_payload, copy_failure,
};

verus! {

/// A task row as the server keeps it.
#[derive(Debug, Clone)]
pub struct ClientTask {
    pub id: i32,
    pub client_id: i32,
    pub task: TaskPayload,
    pub time_start: Option<i64>,
    pub time_download: Option<i64>,
    pub task_status: TaskStatus,
    pub task_result: Option<TaskFailure>,
}

pub struct ClientTaskView {
    pub id: i32,
    pub client_id: i32,
    pub task: TaskPayloadView,
    pub time_start: Option<i64>,
    pub time_download: Option<i64>,
    pub task_status: TaskStatus,
    pub task_result: Option<TaskFailure>,
}

impl View for ClientTask {
    type V = ClientTaskView;

    open spec fn view(&self) -> ClientTaskView {
        ClientTaskView {
            id: self.id,
            client_id: self.client_id,
            task: self.task@,
            time_start: self.time_start,
            time_download: self.time_download,
            task_status: self.task_status,
            task_result: self.task_result,
        }
    }
}

/// Why a status report was not applied.
#[derive(Debug, Clone, Copy, PartialEq, Eq, Structural)]
pub enum TaskUpdateError {
    /// No task with that id belongs to the reporting endpoint.
    UnknownTask,
    /// The report would move the task backward or change a finished task.
    StatusRegression,
}

/// The tasks an endpoint has not fetched yet, in creation order.
pub open spec fn new_tasks_for(rows: Seq<ClientTaskView>, client_id: i32) -> Seq<TaskView>
    decreases rows.len(),
{
    if rows.len() == 0 {
        Seq::empty()
    } else {
        let prev = new_tasks_for(rows.drop_last(), client_id);
        let t = rows.last();
        if t.client_id == client_id && t.task_status == TaskStatus::Created {
            prev.push(TaskView { id: t.id, task: t.task, time_start: t.time_start })
        } else {
            prev
        }
    }
}

/// The task that `id` names belongs to `client_id`.
pub open spec fn owns_task(rows: Seq<ClientTaskView>, client_id: i32, id: i32) -> bool {
    1 <= id <= rows.len() && rows[id - 1].client_id == client_id
}

/// A task row after a report has been applied to it: a result is attached
/// only by the report that finishes the task.
pub open spec fn with_report(t: ClientTaskView, u: TaskUpdate) -> ClientTaskView {
    ClientTaskView {
        task_status: u.task_status,
        time_download: if u.time_downloaded is Some { u.time_downloaded } else { t.time_download },
        task_result: if status_is_terminal(u.task_status) && u.task_result is Some { u.task_result } else { t.task_result },
        ..t
    }
}

/// How a status report from `client_id` takes the rows `before` to `after`.
pub open spec fn status_report_applied(
    before: Seq<ClientTaskView>,
    client_id: i32,
    u: TaskUpdate,
    r: Result<(), TaskUpdateError>,
    after: Seq<ClientTaskView>,
) -> bool {
    &&& (r == Err::<(), TaskUpdateError>(TaskUpdateError::UnknownTask)) <==> !owns_task(before, client_id, u.id)
    &&& (r == Err::<(), TaskUpdateError>(TaskUpdateError::StatusRegression)) <==> (owns_task(before, client_id, u.id)
        && !status_may_follow(before[u.id - 1].task_status, u.task_status))
    &&& r is Ok ==> after == before.update(u.id - 1, with_report(before[u.id - 1], u))
    &&& r is Err ==> after == before
}

/// Server-side task queue, keyed by endpoint.
pub struct TaskManager {
    tasks: Vec<ClientTask>,
}

impl View for TaskManager {
    type V = Seq<ClientTaskView>;

    closed spec fn view(&self) -> Seq<ClientTaskView> {
        self.tasks@.map_values(|t: ClientTask| t@)
    }
}

impl TaskManager {
    /// Task ids are 1, 2, ... in creation order.
    pub open spec fn wf(&self) -> bool {
        forall|i: int| 0 <= i < self@.len() ==> #[trigger] self@[i].id == i + 1
    }

    pub fn new() -> (r: TaskManager)
        ensures
            r.wf(),
            r@ == Seq::<ClientTaskView>::empty(),
    {
        let r = TaskManager { tasks: Vec::new() };
        assert(r@ =~= Seq::<ClientTaskView>::empty());
        r
    }

    pub fn len(&self) -> (r: usize)
        ensures
            r == self@.len(),
    {
        self.tasks.len()
    }

    /// The row of task `id`, if there is one.
    pub fn get(&self, id: i32) -> (r: Option<&ClientTask>)
        requires
            self.wf(),
        ensures
            1 <= id <= self@.len() ==> (r matches Some(t) && t@ == self@[id - 1]),
            !(1 <= id <= self@.len()) ==> r is None,
    {
        if 1 <= id && (id as usize) <= self.tasks.len() {
            Some(&self.tasks[(id - 1) as usize])
        } else {
            None
        }
    }

    /// Queues the removal of the user profile of `sid` on endpoint `client_id`;
    /// `None` once every task id is taken.
    pub fn delete_user_profile(&mut self, client_id: i32, sid: &String) -> (r: Option<i32>)
        requires
            old(self).wf(),
        ensures
            final(self).wf(),
            old(self)@.len() < i32::MAX ==> {
                &&& r == Some((old(self)@.len() + 1) as i32)
                &&& final(self)@.len() == old(self)@.len() + 1
                &&& final(self)@.drop_last() == old(self)@
                &&& final(self)@.last().id == r.unwrap()
                &&& final(self)@.last().client_id == client_id
                &&& is_delete_profile_payload(final(self)@.last().task, sid@)
                &&& final(self)@.last().time_start is None
                &&& final(self)@.last().time_download is None
                &&& final(self)@.last().task_status == TaskStatus::Created
                &&& final(self)@.last().task_result is None
            },
            old(self)@.len() >= i32::MAX ==> r is None && final(self)@ == old(self)@,
    {
        if self.tasks.len() >= i32::MAX as usize {
            return None;
        }
        let id = (self.tasks.len() + 1) as i32;
        let row = ClientTask {
            id,
            client_id,
            task: delete_profile_payload(sid),
            time_start: None,
            time_download: None,
            task_status: TaskStatus::Created,
            task_result: None,
        };
        let ghost before = self@;
        self.tasks.push(row);
        assert(self@.drop_last() =~= before);
        assert forall|i: int| 0 <= i < self@.len() implies #[trigger] self@[i].id == i + 1 by {
            if i < before.len() {
                assert(self@[i] == before[i]);
            }
        }
        Some(id)
    }

    /// The tasks of `client_id` that are still `Created`; nothing is marked.
    pub fn get_new_tasks_for_client(&self, client_id: i32) -> (r: Vec<Task>)
        ensures
            r@.map_values(|t: Task| t@) == new_tasks_for(self@, client_id),
    {
        let mut out: Vec<Task> = Vec::new();
        let mut i: usize = 0;
        while i < self.tasks.len()
            invariant
                i <= self@.len(),
                self@.len() == self.tasks@.len(),
                out@.map_values(|t: Task| t@) == new_tasks_for(self@.subrange(0, i as int), client_id),
            decreases self@.len() - i,
        {
            let t = &self.tasks[i];
            let ghost prev = out@.map_values(|t: Task| t@);
            assert(self@.subrange(0, i + 1).drop_last() =~= self@.subrange(0, i as int));
            assert(self@[i as int] == t@);
            if t.client_id == client_id && t.task_status == TaskStatus::Created {
                let task = Task { id: t.id, task: t.task.duplicate(), time_start: t.time_start };
                out.push(task);
                assert(out@.map_values(|t: Task| t@) =~= prev.push(task@));
            }
            i = i + 1;
        }
        assert(self@.subrange(0, self@.len() as int) =~= self@);
        out
    }

    /// Applies a status report from `client_id`; a report that names another
    /// endpoint's task or would move the task backward changes nothing, and a
    /// result is kept only from the report that finishes the task.
    pub fn update_task_status(&mut self, client_id: i32, update: &TaskUpdate) -> (r: Result<(), TaskUpdateError>)
        requires
            old(self).wf(),
        ensures
            final(self).wf(),
            status_report_applied(old(self)@, client_id, *update, r, final(self)@),
    {
        let id = update.id;
        if id < 1 || (id as usize) > self.tasks.len() || self.tasks[(id - 1) as usize].client_id != client_id {
            return Err(TaskUpdateError::UnknownTask);
        }
        let idx = (id - 1) as usize;
        let old_row = &self.tasks[idx];
        assert(old_row@ == self@[idx as int]);
        if !old_row.task_status.may_advance_to(update.task_status) {
            return Err(TaskUpdateError::StatusRegression);
        }
        let time_download = match update.time_downloaded {
            Some(t) => Some(t),
            None => old_row.time_download,
        };
        let task_result = match &update.task_result {
            Some(f) if update.task_status.is_terminal() => Some(f.duplicate()),
            _ => copy_failure(&old_row.task_result),
        };
        let row = ClientTask {
            id: old_row.id,
            client_id: old_row.client_id,
            task: old_row.task.duplicate(),
            time_start: old_row.time_start,
            time_download,
            task_status: update.task_status,
            task_result,
        };
        let ghost before = self@;
        assert(row@ == with_report(before[idx as int], *update));
        self.tasks.set(idx, row);
        assert(self@ =~= before.update(idx as int, row@));
        Ok(())
    }
}

/// A status report never moves a task backward, and a task that has finished
/// stays exactly as it was.
pub proof fn lemma_status_reports_are_monotone(
    before: Seq<ClientTaskView>,
    client_id: i32,
    u: TaskUpdate,
    r: Result<(), TaskUpdateError>,
    after: Seq<ClientTaskView>,
)
    requires
        status_report_applied(before, client_id, u, r, after),
    ensures
        after.len() == before.len(),
        forall|i: int| 0 <= i < before.len() ==> status_rank(before[i].task_status) <= status_rank(#[trigger] after[i].task_status),
        forall|i: int| 0 <= i < before.len() && status_is_terminal(before[i].task_status) ==> #[trigger] after[i] == before[i],
{
}

} // verus!
