use vstd::prelude::*;
use crate::task::{
    TaskStatus, TaskPayload, TaskPayloadView, TaskParameter, Task, TaskView, TaskFailure, TaskUpdate,
    status_may_follow, status_is_terminal, copy_failure, DELETE_USER_PROFILE, SID_PARAMETER,
};
use crate::text::{eq_ignore_ascii_case, equals_ignore_ascii_case};

verus! {

/// Relies on chrono::Utc::now and DateTime::timestamp: the current time in Unix seconds.
#[verifier::external_body]
fn current_timestamp() -> (r: i64) {
    chrono::Utc::now().timestamp()
}

/// A task in the endpoint's local queue.
#[derive(Debug, Clone)]
pub struct LocalTask {
    pub id: i32,
    pub task: TaskPayload,
    pub time_start: Option<i64>,
    pub time_download: Option<i64>,
    pub task_status: TaskStatus,
    pub task_result: Option<TaskFailure>,
}

pub struct LocalTaskView {
    pub id: i32,
    pub task: TaskPayloadView,
    pub time_start: Option<i64>,
    pub time_download: Option<i64>,
    pub task_status: TaskStatus,
    pub task_result: Option<TaskFailure>,
}

impl View for LocalTask {
    type V = LocalTaskView;

    open spec fn view(&self) -> LocalTaskView {
        LocalTaskView {
            id: self.id,
            task: self.task@,
            time_start: self.time_start,
            time_download: self.time_download,
            task_status: self.task_status,
            task_result: self.task_result,
        }
    }
}

pub open spec fn has_task(rows: Seq<LocalTaskView>, id: i32) -> bool {
    exists|i: int| 0 <= i < rows.len() && rows[i].id == id
}

/// The report that tells the server a task has arrived at `now`.
pub open spec fn downloaded_report(id: i32, now: i64) -> TaskUpdate {
    TaskUpdate { id, time_downloaded: Some(now), task_status: TaskStatus::Downloaded, task_result: None }
}

/// The queue after a fetched task is stored at `now`; a task already queued is kept as it is.
pub open spec fn queue_with_fetched(rows: Seq<LocalTaskView>, t: TaskView, now: i64) -> Seq<LocalTaskView> {
    if has_task(rows, t.id) {
        rows
    } else {
        rows.push(LocalTaskView {
            id: t.id,
            task: t.task,
            time_start: t.time_start,
            time_download: Some(now),
            task_status: TaskStatus::Downloaded,
            task_result: None,
        })
    }
}

/// The task is downloaded and its start time, if any, has come.
pub open spec fn is_due(t: LocalTaskView, now: i64) -> bool {
    t.task_status == TaskStatus::Downloaded && match t.time_start {
        Some(s) => s <= now,
        None => true,
    }
}

/// The queued tasks that are due at `now`, in queue order.
pub open spec fn pending_tasks(rows: Seq<LocalTaskView>, now: i64) -> Seq<TaskView>
    decreases rows.len(),
{
    if rows.len() == 0 {
        Seq::empty()
    } else {
        let prev = pending_tasks(rows.drop_last(), now);
        let t = rows.last();
        if is_due(t, now) {
            prev.push(TaskView { id: t.id, task: t.task, time_start: t.time_start })
        } else {
            prev
        }
    }
}

/// The queue after task `id` is moved to `status` with `result`, where the
/// move goes forward; `None` where it does not, or no such task is queued.
pub open spec fn status_moved(
    rows: Seq<LocalTaskView>,
    id: i32,
    status: TaskStatus,
    result: Option<TaskFailure>,
) -> Option<Seq<LocalTaskView>> {
    if exists|i: int| 0 <= i < rows.len() && rows[i].id == id && status_may_follow(rows[i].task_status, status) {
        let i = choose|i: int| 0 <= i < rows.len() && rows[i].id == id && status_may_follow(rows[i].task_status, status);
        Some(rows.update(i, LocalTaskView { task_status: status, task_result: result, ..rows[i] }))
    } else {
        None
    }
}

/// The endpoint's local mirror of the tasks it has pulled.
pub struct TaskManager {
    tasks: Vec<LocalTask>,
}

impl View for TaskManager {
    type V = Seq<LocalTaskView>;

    closed spec fn view(&self) -> Seq<LocalTaskView> {
        self.tasks@.map_values(|t: LocalTask| t@)
    }
}

impl TaskManager {
    /// Task ids are unique in the queue.
    pub open spec fn wf(&self) -> bool {
        forall|i: int, j: int| 0 <= i < j < self@.len() ==> #[trigger] self@[i].id != #[trigger] self@[j].id
    }

    pub fn new() -> (r: TaskManager)
        ensures
            r.wf(),
            r@ == Seq::<LocalTaskView>::empty(),
    {
        let r = TaskManager { tasks: Vec::new() };
        assert(r@ =~= Seq::<LocalTaskView>::empty());
        r
    }

    fn find(&self, id: i32) -> (r: Option<usize>)
        ensures
            r matches Some(i) ==> i < self@.len() && self@[i as int].id == id,
            r is None ==> !has_task(self@, id),
    {
        let mut i: usize = 0;
        while i < self.tasks.len()
            invariant
                i <= self@.len(),
                self@.len() == self.tasks@.len(),
                forall|j: int| 0 <= j < i ==> self@[j].id != id,
            decreases self@.len() - i,
        {
            assert(self@[i as int] == self.tasks@[i as int]@);
            if self.tasks[i].id == id {
                return Some(i);
            }
            i = i + 1;
        }
        None
    }

    /// Stores a task fetched from the server at time `now` and returns the
    /// report that tells the server it has arrived.
    pub fn add_new_task_at(&mut self, task: Task, now: i64) -> (r: TaskUpdate)
        requires
            old(self).wf(),
        ensures
            final(self).wf(),
            r == downloaded_report(task.id, now),
            final(self)@ == queue_with_fetched(old(self)@, task@, now),
    {
        let id = task.id;
        match self.find(id) {
            Some(_) => {},
            None => {
                let ghost before = self@;
                let row = LocalTask {
                    id,
                    task: task.task,
                    time_start: task.time_start,
                    time_download: Some(now),
                    task_status: TaskStatus::Downloaded,
                    task_result: None,
                };
                self.tasks.push(row);
                assert(self@ =~= before.push(row@));
                assert forall|i: int, j: int| 0 <= i < j < self@.len() implies #[trigger] self@[i].id != #[trigger] self@[j].id by {
                    if j == before.len() {
                        assert(self@[i] == before[i]);
                    } else {
                        assert(self@[i] == before[i] && self@[j] == before[j]);
                    }
                }
            },
        }
        TaskUpdate { id, time_downloaded: Some(now), task_status: TaskStatus::Downloaded, task_result: None }
    }

    /// Stores a fetched task, stamped with the current time.
    pub fn add_new_task(&mut self, task: Task) -> (r: TaskUpdate)
        requires
            old(self).wf(),
        ensures
            final(self).wf(),
            r.time_downloaded is Some,
            r == downloaded_report(task.id, r.time_downloaded.unwrap()),
            final(self)@ == queue_with_fetched(old(self)@, task@, r.time_downloaded.unwrap()),
    {
        let now = current_timestamp();
        self.add_new_task_at(task, now)
    }

    /// The tasks that are due at time `now`.
    pub fn get_pending_tasks_at(&self, now: i64) -> (r: Vec<Task>)
        ensures
            r@.map_values(|t: Task| t@) == pending_tasks(self@, now),
    {
        let mut out: Vec<Task> = Vec::new();
        let mut i: usize = 0;
        while i < self.tasks.len()
            invariant
                i <= self@.len(),
                self@.len() == self.tasks@.len(),
                out@.map_values(|t: Task| t@) == pending_tasks(self@.subrange(0, i as int), now),
            decreases self@.len() - i,
        {
            let t = &self.tasks[i];
            let ghost prev = out@.map_values(|t: Task| t@);
            assert(self@.subrange(0, i + 1).drop_last() =~= self@.subrange(0, i as int));
            assert(self@[i as int] == t@);
            let due = match t.time_start {
                Some(s) => s <= now,
                None => true,
            };
            if t.task_status == TaskStatus::Downloaded && due {
                let task = Task { id: t.id, task: t.task.duplicate(), time_start: t.time_start };
                out.push(task);
                assert(out@.map_values(|t: Task| t@) =~= prev.push(task@));
            }
            i = i + 1;
        }
        assert(self@.subrange(0, self@.len() as int) =~= self@);
        out
    }

    /// The tasks that are due now.
    pub fn get_pending_tasks(&self) -> (r: Vec<Task>)
        ensures
            exists|now: i64| r@.map_values(|t: Task| t@) == pending_tasks(self@, now),
    {
        let now = current_timestamp();
        self.get_pending_tasks_at(now)
    }

    fn move_status(&mut self, id: i32, status: TaskStatus, result: Option<TaskFailure>) -> (r: bool)
        requires
            old(self).wf(),
        ensures
            final(self).wf(),
            r == status_moved(old(self)@, id, status, result) is Some,
            r ==> final(self)@ == status_moved(old(self)@, id, status, result).unwrap(),
            !r ==> final(self)@ == old(self)@,
    {
        let ghost before = self@;
        match self.find(id) {
            None => {
                assert(!(exists|i: int| 0 <= i < before.len() && before[i].id == id && status_may_follow(before[i].task_status, status)));
                false
            },
            Some(i) => {
                let old_row = &self.tasks[i];
                assert(old_row@ == before[i as int]);
                if !old_row.task_status.may_advance_to(status) {
                    assert forall|j: int| 0 <= j < before.len() && before[j].id == id implies !status_may_follow(before[j].task_status, status) by {
                        if j != i {
                            assert(before[j].id != before[i as int].id);
                        }
                    }
                    return false;
                }
                let row = LocalTask {
                    id: old_row.id,
                    task: old_row.task.duplicate(),
                    time_start: old_row.time_start,
                    time_download: old_row.time_download,
                    task_status: status,
                    task_result: result,
                };
                proof {
                    let k = choose|k: int| 0 <= k < before.len() && before[k].id == id && status_may_follow(before[k].task_status, status);
                    if k != i {
                        assert(before[k].id != before[i as int].id);
                    }
                }
                self.tasks.set(i, row);
                assert(self@ =~= before.update(i as int, row@));
                assert forall|a: int, b: int| 0 <= a < b < self@.len() implies #[trigger] self@[a].id != #[trigger] self@[b].id by {
                    assert(self@[a].id == before[a].id && self@[b].id == before[b].id);
                }
                true
            },
        }
    }

    /// Marks task `id` as running and returns the report for the server;
    /// `None` where no such task is queued or it is already past that point.
    pub fn task_update_running(&mut self, id: i32) -> (r: Option<TaskUpdate>)
        requires
            old(self).wf(),
        ensures
            final(self).wf(),
            (r is Some) == status_moved(old(self)@, id, TaskStatus::Running, None) is Some,
            r is Some ==> final(self)@ == status_moved(old(self)@, id, TaskStatus::Running, None).unwrap()
                && r == Some(TaskUpdate { id, time_downloaded: None, task_status: TaskStatus::Running, task_result: None }),
            r is None ==> final(self)@ == old(self)@,
    {
        if self.move_status(id, TaskStatus::Running, None) {
            Some(TaskUpdate { id, time_downloaded: None, task_status: TaskStatus::Running, task_result: None })
        } else {
            None
        }
    }

    /// Records the terminal report of a task in the queue; `false` where the
    /// report is not terminal, names no queued task, or the task has finished already.
    pub fn task_update_finished(&mut self, report: &TaskUpdate) -> (r: bool)
        requires
            old(self).wf(),
        ensures
            final(self).wf(),
            r == (status_is_terminal(report.task_status)
                && status_moved(old(self)@, report.id, report.task_status, report.task_result) is Some),
            r ==> final(self)@ == status_moved(old(self)@, report.id, report.task_status, report.task_result).unwrap(),
            !r ==> final(self)@ == old(self)@,
    {
        if !report.task_status.is_terminal() {
            return false;
        }
        self.move_status(report.id, report.task_status, copy_failure(&report.task_result))
    }
}

/// A status change in the local queue never moves a task backward, and a task
/// that has finished stays exactly as it was.
pub proof fn lemma_local_status_moves_forward(
    before: Seq<LocalTaskView>,
    id: i32,
    status: TaskStatus,
    result: Option<TaskFailure>,
)
    requires
        status_moved(before, id, status, result) is Some,
    ensures
        status_moved(before, id, status, result).unwrap().len() == before.len(),
        forall|i: int| 0 <= i < before.len() ==> crate::task::status_rank(before[i].task_status)
            <= crate::task::status_rank(#[trigger] status_moved(before, id, status, result).unwrap()[i].task_status),
        forall|i: int| 0 <= i < before.len() && status_is_terminal(before[i].task_status)
            ==> #[trigger] status_moved(before, id, status, result).unwrap()[i] == before[i],
{
}

/// An operation that an endpoint knows how to carry out.
#[derive(Debug, Clone, PartialEq, Eq)]
pub enum TaskOperation {
    DeleteUserProfile { sid: String },
}

/// Why a task cannot be carried out.
#[derive(Debug, Clone, Copy, PartialEq, Eq, Structural)]
pub enum TaskRejection {
    UnknownOperation,
    MissingParameters,
}

pub open spec fn names_delete_profile(p: TaskPayloadView) -> bool {
    eq_ignore_ascii_case(p.name, DELETE_USER_PROFILE@)
}

/// `k` is the first parameter named `sid`.
pub open spec fn is_sid_parameter(ps: Seq<TaskParameter>, k: int) -> bool {
    0 <= k < ps.len() && ps[k].name@ == SID_PARAMETER@
        && forall|j: int| 0 <= j < k ==> ps[j].name@ != SID_PARAMETER@
}

pub open spec fn has_sid_parameter(p: TaskPayloadView) -> bool {
    p.parameters is Some && exists|k: int| is_sid_parameter(p.parameters.unwrap(), k)
}

/// Reads the operation that a payload asks for.
pub fn parse_task(p: &TaskPayload) -> (r: Result<TaskOperation, TaskRejection>)
    ensures
        !names_delete_profile(p@) ==> r == Err::<TaskOperation, TaskRejection>(TaskRejection::UnknownOperation),
        names_delete_profile(p@) && !has_sid_parameter(p@) ==> r == Err::<TaskOperation, TaskRejection>(TaskRejection::MissingParameters),
        names_delete_profile(p@) && has_sid_parameter(p@) ==> (r matches Ok(TaskOperation::DeleteUserProfile { sid })
            && exists|k: int| is_sid_parameter(p@.parameters.unwrap(), k) && sid@ == p@.parameters.unwrap()[k].value@),
{
    if !equals_ignore_ascii_case(p.name.as_str(), DELETE_USER_PROFILE) {
        return Err(TaskRejection::UnknownOperation);
    }
    match &p.parameters {
        None => Err(TaskRejection::MissingParameters),
        Some(ps) => {
            let key = String::from_str(SID_PARAMETER);
            let mut i: usize = 0;
            while i < ps.len()
                invariant
                    i <= ps@.len(),
                    key@ == SID_PARAMETER@,
                    names_delete_profile(p@),
                    p@.parameters == Some(ps@),
                    forall|j: int| 0 <= j < i ==> ps@[j].name@ != SID_PARAMETER@,
                decreases ps@.len() - i,
            {
                if ps[i].name == key {
                    assert(is_sid_parameter(p@.parameters.unwrap(), i as int));
                    return Ok(TaskOperation::DeleteUserProfile { sid: ps[i].value.clone() });
                }
                i = i + 1;
            }
            Err(TaskRejection::MissingParameters)
        },
    }
}

/// Error text reported for a task that cannot be carried out.
pub fn rejection_message(r: TaskRejection) -> (s: String)
    ensures
        r == TaskRejection::UnknownOperation ==> s@ == "unknown task"@,
        r == TaskRejection::MissingParameters ==> s@ == "missing parameters"@,
{
    match r {
        TaskRejection::UnknownOperation => String::from_str("unknown task"),
        TaskRejection::MissingParameters => String::from_str("missing parameters"),
    }
}

/// The one terminal report for a task whose operation ran with `outcome`.
pub fn outcome_report(id: i32, outcome: &Result<(), String>) -> (r: TaskUpdate)
    ensures
        r.id == id,
        r.time_downloaded is None,
        outcome is Ok ==> r.task_status == TaskStatus::Successful && r.task_result is None,
        outcome matches Err(e) ==> (r.task_status == TaskStatus::Failed
            && r.task_result == Some(TaskFailure { error: *e })),
{
    match outcome {
        Ok(()) => TaskUpdate { id, time_downloaded: None, task_status: TaskStatus::Successful, task_result: None },
        Err(e) => TaskUpdate {
            id,
            time_downloaded: None,
            task_status: TaskStatus::Failed,
            task_result: Some(TaskFailure { error: e.clone() }),
        },
    }
}

/// What the executor does with a due task.
#[derive(Debug, Clone)]
pub enum TaskStep {
    /// Carry out the operation, then report its outcome with `outcome_report`.
    Execute(TaskOperation),
    /// Report this terminal status without running anything.
    Finish(TaskUpdate),
}

/// Decides what to do with a task: run its operation, or end it `Failed`
/// with the reason where its operation is unknown or lacks parameters.
pub fn plan_task(task: &Task) -> (r: TaskStep)
    ensures
        !names_delete_profile(task.task@) ==> (r matches TaskStep::Finish(u) && u.id == task.id
            && u.task_status == TaskStatus::Failed && u.time_downloaded is None
            && u.task_result is Some && u.task_result.unwrap().error@ == "unknown task"@),
        names_delete_profile(task.task@) && !has_sid_parameter(task.task@) ==> (r matches TaskStep::Finish(u)
            && u.id == task.id && u.task_status == TaskStatus::Failed && u.time_downloaded is None
            && u.task_result is Some && u.task_result.unwrap().error@ == "missing parameters"@),
        names_delete_profile(task.task@) && has_sid_parameter(task.task@) ==> (r matches TaskStep::Execute(
            TaskOperation::DeleteUserProfile { sid },
        ) && exists|k: int| is_sid_parameter(task.task@.parameters.unwrap(), k) && sid@ == task.task@.parameters.unwrap()[k].value@),
{
    match parse_task(&task.task) {
        Ok(op) => TaskStep::Execute(op),
        Err(rej) => TaskStep::Finish(TaskUpdate {
            id: task.id,
            time_downloaded: None,
            task_status: TaskStatus::Failed,
            task_result: Some(TaskFailure { error: rejection_message(rej) }),
        }),
    }
}

} // verus!
