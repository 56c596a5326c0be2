use systrace::task::{Task, TaskState};
use systrace::tasks::TracedTasks;

#[test]
fn records_are_found_by_pid() {
    let mut tasks = TracedTasks::new();
    assert!(!tasks.contains(1));
    assert_eq!(tasks.add(Task::new(1)), Ok(()));
    assert_eq!(tasks.add(Task::new(2)), Ok(()));
    assert!(tasks.contains(1));
    assert_eq!(*tasks.get(1), Task::new(1));
    assert_eq!(tasks.get(2).pid, 2);
    assert_eq!(tasks.remove(1), Ok(()));
    assert!(!tasks.contains(1));
    assert!(tasks.contains(2));
    assert_eq!(tasks.remove(1), Ok(()));
}

#[test]
fn record_is_changed_in_place() {
    let mut tasks = TracedTasks::new();
    tasks.add(Task::new(1)).unwrap();
    tasks.add(Task::new(2)).unwrap();
    {
        let task = tasks.get_mut(1);
        assert_eq!(task.state, TaskState::Created);
        task.state = TaskState::Running;
        task.contract_armed = true;
    }
    assert_eq!(tasks.get(1).state, TaskState::Running);
    assert!(tasks.get(1).contract_armed);
    assert_eq!(*tasks.get(2), Task::new(2));
}

#[test]
fn adding_again_replaces_the_record() {
    let mut tasks = TracedTasks::new();
    tasks.add(Task::new(1)).unwrap();
    let mut changed = Task::new(1);
    changed.arm_contract();
    tasks.add(changed).unwrap();
    assert_eq!(*tasks.get(1), changed);
}
