use vstd::prelude::*;

verus! {

/// Lifecycle of a remote task: `Created < Downloaded < Running < {Successful, Failed}`.
#[derive(Debug, Clone, Copy, PartialEq, Eq, Structural)]
pub enum TaskStatus {
    Created,
    Downloaded,
    Running,
    Successful,
    Failed,
}

/// Position of a status along the lifecycle; both terminal states share the last rank.
pub open spec fn status_rank(s: TaskStatus) -> nat {
    match s {
        TaskStatus::Created => 0,
        TaskStatus::Downloaded => 1,
        TaskStatus::Running => 2,
        TaskStatus::Successful => 3,
        TaskStatus::Failed => 3,
    }
}

pub open spec fn status_is_terminal(s: TaskStatus) -> bool {
    s is Successful || s is Failed
}

/// A task in status `old` may be moved to status `new`: it is not finished yet
/// and the move does not go backward.
pub open spec fn status_may_follow(old: TaskStatus, new: TaskStatus) -> bool {
    !status_is_terminal(old) && status_rank(old) <= status_rank(new)
}

impl TaskStatus {
    pub fn rank(&self) -> (r: u8)
        ensures
            r as nat == status_rank(*self),
    {
        match self {
            TaskStatus::Created => 0,
            TaskStatus::Downloaded => 1,
            TaskStatus::Running => 2,
            TaskStatus::Successful => 3,
            TaskStatus::Failed => 3,
        }
    }

    pub fn is_terminal(&self) -> (r: bool)
        ensures
            r == status_is_terminal(*self),
    {
        match self {
            TaskStatus::Successful | TaskStatus::Failed => true,
            _ => false,
        }
    }

    pub fn may_advance_to(&self, next: TaskStatus) -> (r: bool)
        ensures
            r == status_may_follow(*self, next),
    {
        !self.is_terminal() && self.rank() <= next.rank()
    }
}


/// One named parameter of a task operation.
#[derive(Debug, Clone, PartialEq, Eq)]
pub struct TaskParameter {
    pub name: String,
    pub value: String,
}

/// A named operation with its parameter bag; `parameters` is `None` where the
/// payload carried no parameter object.
#[derive(Debug, Clone, PartialEq, Eq)]
pub struct TaskPayload {
    pub name: String,
    pub parameters: Option<Vec<TaskParameter>>,
}

/// What a payload holds: the operation's name and its parameters.
pub struct TaskPayloadView {
    pub name: Seq<char>,
    pub parameters: Option<Seq<TaskParameter>>,
}

impl View for TaskPayload {
    type V = TaskPayloadView;

    open spec fn view(&self) -> TaskPayloadView {
        TaskPayloadView {
            name: self.name@,
            parameters: match self.parameters {
                Some(ps) => Some(ps@),
                None => None,
            },
        }
    }
}

/// A task as the server hands it to an endpoint; times are Unix seconds.
#[derive(Debug, Clone, PartialEq, Eq)]
pub struct Task {
    pub id: i32,
    pub task: TaskPayload,
    pub time_start: Option<i64>,
}

/// What a task holds.
pub struct TaskView {
    pub id: i32,
    pub task: TaskPayloadView,
    pub time_start: Option<i64>,
}

impl View for Task {
    type V = TaskView;

    open spec fn view(&self) -> TaskView {
        TaskView { id: self.id, task: self.task@, time_start: self.time_start }
    }
}

/// Result attached to a failed task.
#[derive(Debug, Clone, PartialEq, Eq)]
pub struct TaskFailure {
    pub error: String,
}

/// A status report from an endpoint about one task.
#[derive(Debug, Clone, PartialEq, Eq)]
pub struct TaskUpdate {
    pub id: i32,
    pub time_downloaded: Option<i64>,
    pub task_status: TaskStatus,
    pub task_result: Option<TaskFailure>,
}

/// Name of the operation that removes a user profile from an endpoint.
pub const DELETE_USER_PROFILE: &'static str = "delete-user-profile";

/// Name of the parameter that holds the security identifier of a profile.
pub const SID_PARAMETER: &'static str = "sid";

/// `p` asks for the profile of `sid` to be deleted.
pub open spec fn is_delete_profile_payload(p: TaskPayloadView, sid: Seq<char>) -> bool {
    &&& p.name == DELETE_USER_PROFILE@
    &&& p.parameters matches Some(ps)
    &&& ps.len() == 1
    &&& ps[0].name@ == SID_PARAMETER@
    &&& ps[0].value@ == sid
}

pub fn delete_profile_payload(sid: &String) -> (r: TaskPayload)
    ensures
        is_delete_profile_payload(r@, sid@),
{
    let mut ps: Vec<TaskParameter> = Vec::new();
    ps.push(TaskParameter { name: String::from_str(SID_PARAMETER), value: sid.clone() });
    TaskPayload { name: String::from_str(DELETE_USER_PROFILE), parameters: Some(ps) }
}

impl TaskPayload {
    pub fn duplicate(&self) -> (r: TaskPayload)
        ensures
            r@ == self@,
    {
        let parameters = match &self.parameters {
            None => None,
            Some(ps) => {
                let mut out: Vec<TaskParameter> = Vec::new();
                let mut i: usize = 0;
                while i < ps.len()
                    invariant
                        i <= ps@.len(),
                        out@ == ps@.subrange(0, i as int),
                    decreases ps@.len() - i,
                {
                    out.push(TaskParameter { name: ps[i].name.clone(), value: ps[i].value.clone() });
                    i = i + 1;
                    assert(out@ =~= ps@.subrange(0, i as int));
                }
                assert(out@ =~= ps@);
                Some(out)
            },
        };
        TaskPayload { name: self.name.clone(), parameters }
    }
}

impl TaskFailure {
    pub fn duplicate(&self) -> (r: TaskFailure)
        ensures
            r == *self,
    {
        TaskFailure { error: self.error.clone() }
    }
}

pub fn copy_failure(o: &Option<TaskFailure>) -> (r: Option<TaskFailure>)
    ensures
        r == *o,
{
    match o {
        Some(f) => Some(f.duplicate()),
        None => None,
    }
}

} // verus!
