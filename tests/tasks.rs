use sit_core::agent_task::{self, TaskOperation, TaskRejection, TaskStep};
use sit_core::server_task::{self, TaskUpdateError};
use sit_core::task::{delete_profile_payload, TaskParameter, TaskPayload};
use sit_core::{Task, TaskFailure, TaskStatus, TaskUpdate};

fn payload(name: &str, params: Option<Vec<(&str, &str)>>) -> TaskPayload {
    TaskPayload {
        name: name.to_string(),
        parameters: params.map(|ps| {
            ps.into_iter()
                .map(|(n, v)| TaskParameter { name: n.to_string(), value: v.to_string() })
                .collect()
        }),
    }
}

fn report(id: i32, status: TaskStatus) -> TaskUpdate {
    TaskUpdate { id, time_downloaded: None, task_status: status, task_result: None }
}

#[test]
fn status_ranks_follow_lifecycle() {
    assert!(TaskStatus::Created.rank() < TaskStatus::Downloaded.rank());
    assert!(TaskStatus::Downloaded.rank() < TaskStatus::Running.rank());
    assert!(TaskStatus::Running.rank() < TaskStatus::Successful.rank());
    assert_eq!(TaskStatus::Successful.rank(), TaskStatus::Failed.rank());
    assert!(TaskStatus::Created.may_advance_to(TaskStatus::Running));
    assert!(!TaskStatus::Running.may_advance_to(TaskStatus::Downloaded));
    assert!(!TaskStatus::Failed.may_advance_to(TaskStatus::Successful));
    assert!(TaskStatus::Failed.is_terminal());
    assert!(!TaskStatus::Running.is_terminal());
}

#[test]
fn server_creates_and_hands_out_pending_tasks() {
    let mut tm = server_task::TaskManager::new();
    let id = tm.delete_user_profile(7, &"S-1-5-21-1".to_string()).unwrap();
    assert_eq!(id, 1);
    let other = tm.delete_user_profile(8, &"S-1-5-21-2".to_string()).unwrap();
    assert_eq!(other, 2);
    let fetched = tm.get_new_tasks_for_client(7);
    assert_eq!(fetched.len(), 1);
    assert_eq!(fetched[0].id, 1);
    assert_eq!(fetched[0].task, delete_profile_payload(&"S-1-5-21-1".to_string()));
    assert_eq!(fetched[0].task.name, "delete-user-profile");
    // fetching marks nothing
    assert_eq!(tm.get_new_tasks_for_client(7).len(), 1);
    assert_eq!(tm.get(1).unwrap().task_status, TaskStatus::Created);
}

#[test]
fn server_task_status_never_moves_backward() {
    let mut tm = server_task::TaskManager::new();
    tm.delete_user_profile(7, &"S-1".to_string()).unwrap();
    let downloaded = TaskUpdate {
        id: 1,
        time_downloaded: Some(1_700_000_000),
        task_status: TaskStatus::Downloaded,
        task_result: None,
    };
    assert_eq!(tm.update_task_status(7, &downloaded), Ok(()));
    assert_eq!(tm.get(1).unwrap().time_download, Some(1_700_000_000));
    assert!(tm.get_new_tasks_for_client(7).is_empty());
    assert_eq!(tm.update_task_status(7, &report(1, TaskStatus::Running)), Ok(()));
    assert_eq!(
        tm.update_task_status(7, &report(1, TaskStatus::Downloaded)),
        Err(TaskUpdateError::StatusRegression)
    );
    let failed = TaskUpdate {
        id: 1,
        time_downloaded: None,
        task_status: TaskStatus::Failed,
        task_result: Some(TaskFailure { error: "access denied".to_string() }),
    };
    assert_eq!(tm.update_task_status(7, &failed), Ok(()));
    assert_eq!(
        tm.update_task_status(7, &report(1, TaskStatus::Successful)),
        Err(TaskUpdateError::StatusRegression)
    );
    let row = tm.get(1).unwrap();
    assert_eq!(row.task_status, TaskStatus::Failed);
    assert_eq!(row.task_result, Some(TaskFailure { error: "access denied".to_string() }));
    assert_eq!(row.time_download, Some(1_700_000_000));
}

#[test]
fn server_rejects_report_for_foreign_task() {
    let mut tm = server_task::TaskManager::new();
    tm.delete_user_profile(7, &"S-1".to_string()).unwrap();
    assert_eq!(tm.update_task_status(8, &report(1, TaskStatus::Running)), Err(TaskUpdateError::UnknownTask));
    assert_eq!(tm.update_task_status(7, &report(5, TaskStatus::Running)), Err(TaskUpdateError::UnknownTask));
    assert_eq!(tm.get(1).unwrap().task_status, TaskStatus::Created);
}

#[test]
fn agent_stores_fetched_task_once_and_reports_download() {
    let mut q = agent_task::TaskManager::new();
    let t = Task { id: 4, task: payload("delete-user-profile", Some(vec![("sid", "S-1")])), time_start: None };
    let r = q.add_new_task_at(t.clone(), 1000);
    assert_eq!(r, TaskUpdate { id: 4, time_downloaded: Some(1000), task_status: TaskStatus::Downloaded, task_result: None });
    let again = q.add_new_task_at(t.clone(), 1060);
    assert_eq!(again.time_downloaded, Some(1060));
    let pending = q.get_pending_tasks_at(1100);
    assert_eq!(pending, vec![t]);
}

#[test]
fn agent_stamps_download_with_clock() {
    let mut q = agent_task::TaskManager::new();
    let t = Task { id: 9, task: payload("x", None), time_start: None };
    let r = q.add_new_task(t);
    assert_eq!(r.task_status, TaskStatus::Downloaded);
    assert!(r.time_downloaded.unwrap() > 1_600_000_000);
    assert_eq!(q.get_pending_tasks().len(), 1);
}

#[test]
fn agent_waits_for_start_time() {
    let mut q = agent_task::TaskManager::new();
    let t = Task { id: 1, task: payload("x", None), time_start: Some(5000) };
    q.add_new_task_at(t, 1000);
    assert!(q.get_pending_tasks_at(4999).is_empty());
    assert_eq!(q.get_pending_tasks_at(5000).len(), 1);
}

#[test]
fn agent_runs_task_once_and_reports_one_outcome() {
    let mut q = agent_task::TaskManager::new();
    let t = Task { id: 3, task: payload("delete-user-profile", Some(vec![("sid", "S-1")])), time_start: None };
    q.add_new_task_at(t, 10);
    assert_eq!(q.task_update_running(3), Some(report(3, TaskStatus::Running)));
    assert!(q.get_pending_tasks_at(20).is_empty());
    let done = agent_task::outcome_report(3, &Ok(()));
    assert_eq!(done, report(3, TaskStatus::Successful));
    assert!(q.task_update_finished(&done));
    assert!(!q.task_update_finished(&agent_task::outcome_report(3, &Err("late".to_string()))));
    assert!(!q.task_update_finished(&report(3, TaskStatus::Running)));
    assert_eq!(q.task_update_running(3), None);
    assert_eq!(q.task_update_running(99), None);
}

#[test]
fn failed_outcome_carries_error() {
    let r = agent_task::outcome_report(2, &Err("profile in use".to_string()));
    assert_eq!(r.task_status, TaskStatus::Failed);
    assert_eq!(r.task_result, Some(TaskFailure { error: "profile in use".to_string() }));
    assert_eq!(r.time_downloaded, None);
}

#[test]
fn unknown_operation_fails() {
    let t = Task { id: 11, task: payload("bogus-op", Some(vec![("sid", "S-1")])), time_start: None };
    match agent_task::plan_task(&t) {
        TaskStep::Finish(u) => {
            assert_eq!(u.id, 11);
            assert_eq!(u.task_status, TaskStatus::Failed);
            assert_eq!(u.task_result, Some(TaskFailure { error: "unknown task".to_string() }));
        }
        TaskStep::Execute(_) => panic!("an unknown operation must not run"),
    }
    assert_eq!(agent_task::parse_task(&t.task), Err(TaskRejection::UnknownOperation));
}

#[test]
fn missing_parameters_fail() {
    let none = payload("delete-user-profile", None);
    assert_eq!(agent_task::parse_task(&none), Err(TaskRejection::MissingParameters));
    let other = payload("delete-user-profile", Some(vec![("user", "x")]));
    assert_eq!(agent_task::parse_task(&other), Err(TaskRejection::MissingParameters));
    let t = Task { id: 1, task: other, time_start: None };
    match agent_task::plan_task(&t) {
        TaskStep::Finish(u) => {
            assert_eq!(u.task_status, TaskStatus::Failed);
            assert_eq!(u.task_result, Some(TaskFailure { error: "missing parameters".to_string() }));
        }
        TaskStep::Execute(_) => panic!("a task without its parameters must not run"),
    }
}

#[test]
fn delete_profile_operation_is_recognised_in_any_case() {
    let p = payload("Delete-User-PROFILE", Some(vec![("path", "C:"), ("sid", "S-1-5-21-9")]));
    assert_eq!(
        agent_task::parse_task(&p),
        Ok(TaskOperation::DeleteUserProfile { sid: "S-1-5-21-9".to_string() })
    );
    assert_eq!(agent_task::rejection_message(TaskRejection::UnknownOperation), "unknown task");
}

#[test]
fn result_is_attached_only_by_terminal_report() {
    let mut tm = server_task::TaskManager::new();
    tm.delete_user_profile(7, &"S-1".to_string()).unwrap();
    let running = TaskUpdate {
        id: 1,
        time_downloaded: None,
        task_status: TaskStatus::Running,
        task_result: Some(TaskFailure { error: "early".to_string() }),
    };
    assert_eq!(tm.update_task_status(7, &running), Ok(()));
    assert_eq!(tm.get(1).unwrap().task_status, TaskStatus::Running);
    assert_eq!(tm.get(1).unwrap().task_result, None);
    let failed = TaskUpdate {
        id: 1,
        time_downloaded: None,
        task_status: TaskStatus::Failed,
        task_result: Some(TaskFailure { error: "late".to_string() }),
    };
    assert_eq!(tm.update_task_status(7, &failed), Ok(()));
    assert_eq!(tm.get(1).unwrap().task_result, Some(TaskFailure { error: "late".to_string() }));
}
