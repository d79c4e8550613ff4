use fibonacci_cli::concurrent_task_pool::{
    max_concurrent_is_valid, settle_task, TaskEntry, TaskOutcome, TaskRegistry, TaskState,
    TaskStatus, CANCEL_REQUESTED, DEFAULT_MAX_CONCURRENT,
};
use tokio::runtime::Runtime;
use tokio::sync::watch;

/// A registry entry whose task sleeps long enough to still be running while
/// the test inspects it; returns the entry and the receiving end of its
/// cancellation signal.
fn sleeping_entry(rt: &Runtime, state: u32) -> (TaskEntry<u32>, watch::Receiver<bool>, tokio::task::JoinHandle<()>) {
    let (tx, rx) = watch::channel(false);
    let join = rt.spawn(async {
        tokio::time::sleep(std::time::Duration::from_secs(10)).await;
    });
    let entry = TaskEntry {
        cancel: tx,
        abort: join.abort_handle(),
        state,
    };
    (entry, rx, join)
}

#[test]
fn ids_count_up_from_zero() {
    let mut reg: TaskRegistry<u32> = TaskRegistry::new();
    assert_eq!(reg.allocate_id(), 0);
    assert_eq!(reg.allocate_id(), 1);
    assert_eq!(reg.allocate_id(), 2);
    assert!(reg.is_empty());
}

#[test]
fn registered_task_can_be_looked_up() {
    let rt = Runtime::new().unwrap();
    let mut reg: TaskRegistry<u32> = TaskRegistry::new();
    let id = reg.allocate_id();
    let (entry, _rx, _join) = sleeping_entry(&rt, 42);
    reg.register(id, entry);
    assert_eq!(reg.len(), 1);
    assert!(!reg.is_empty());
    assert_eq!(reg.state(id), Some(&42));
    assert_eq!(reg.state(id + 1), None);
}

#[test]
fn cancel_signals_and_removes_task() {
    let rt = Runtime::new().unwrap();
    let mut reg: TaskRegistry<u32> = TaskRegistry::new();
    let id = reg.allocate_id();
    let (entry, rx, _join) = sleeping_entry(&rt, 1);
    reg.register(id, entry);
    assert!(!*rx.borrow());
    assert!(reg.cancel(id));
    assert!(*rx.borrow());
    assert_eq!(reg.state(id), None);
    assert!(reg.is_empty());
    assert!(!reg.cancel(id));
}

#[test]
fn abort_stops_and_removes_task() {
    let rt = Runtime::new().unwrap();
    let mut reg: TaskRegistry<u32> = TaskRegistry::new();
    let id = reg.allocate_id();
    let (entry, _rx, join) = sleeping_entry(&rt, 1);
    reg.register(id, entry);
    assert!(reg.abort(id));
    let outcome = rt.block_on(join);
    assert!(outcome.unwrap_err().is_cancelled());
    assert_eq!(reg.state(id), None);
    assert!(!reg.abort(id));
}

#[test]
fn cancel_all_clears_pool() {
    let rt = Runtime::new().unwrap();
    let mut reg: TaskRegistry<u32> = TaskRegistry::new();
    let mut receivers = Vec::new();
    for i in 0..5 {
        let id = reg.allocate_id();
        let (entry, rx, _join) = sleeping_entry(&rt, i);
        reg.register(id, entry);
        receivers.push(rx);
    }
    assert_eq!(reg.len(), 5);
    reg.cancel_all();
    assert!(reg.is_empty());
    for rx in receivers {
        assert!(*rx.borrow());
    }
    assert_eq!(reg.allocate_id(), 5);
}

#[test]
fn abort_all_clears_registry() {
    let rt = Runtime::new().unwrap();
    let mut reg: TaskRegistry<u32> = TaskRegistry::new();
    let mut joins = Vec::new();
    for i in 0..3 {
        let id = reg.allocate_id();
        let (entry, _rx, join) = sleeping_entry(&rt, i);
        reg.register(id, entry);
        joins.push(join);
    }
    reg.abort_all();
    assert_eq!(reg.len(), 0);
    for join in joins {
        assert!(rt.block_on(join).unwrap_err().is_cancelled());
    }
}

#[test]
fn result_can_be_queried_multiple_times() {
    let mut state: TaskState<i32> = TaskState::new();
    state.complete(7);
    assert_eq!(state.result().copied(), Some(7));
    assert_eq!(state.result().copied(), Some(7));
}

#[test]
fn task_state_lifecycle() {
    let mut state: TaskState<u64> = TaskState::new();
    assert_eq!(state.status(), TaskStatus::Running);
    assert_eq!(state.result(), None);
    state.complete(7);
    assert_eq!(state.status(), TaskStatus::Completed);
    assert_eq!(state.result(), Some(&7));
    assert_eq!(state.result(), Some(&7));
    assert_eq!(state.take_result(), Some(7));
    assert_eq!(state.status(), TaskStatus::Completed);
    assert_eq!(state.result(), None);
    assert_eq!(state.take_result(), None);
}

#[test]
fn settled_cancellation_removes_task() {
    let rt = Runtime::new().unwrap();
    let mut reg: TaskRegistry<u32> = TaskRegistry::new();
    let id = reg.allocate_id();
    let (entry, _rx, _join) = sleeping_entry(&rt, 9);
    reg.register(id, entry);
    let mut state: TaskState<u64> = TaskState::new();
    settle_task(&mut reg, &mut state, id, TaskOutcome::Cancelled);
    assert_eq!(reg.state(id), None);
    assert_eq!(state.status(), TaskStatus::Running);
    assert_eq!(state.result(), None);
}

#[test]
fn settled_completion_keeps_task_registered() {
    let rt = Runtime::new().unwrap();
    let mut reg: TaskRegistry<u32> = TaskRegistry::new();
    let id = reg.allocate_id();
    let (entry, _rx, _join) = sleeping_entry(&rt, 9);
    reg.register(id, entry);
    let mut state: TaskState<u64> = TaskState::new();
    settle_task(&mut reg, &mut state, id, TaskOutcome::Finished(3));
    assert_eq!(reg.state(id), Some(&9));
    assert_eq!(reg.len(), 1);
    assert_eq!(state.status(), TaskStatus::Completed);
    assert_eq!(state.result(), Some(&3));
}

#[test]
fn cancel_requested_value_is_true() {
    assert!(CANCEL_REQUESTED);
}

#[test]
fn registry_accepts_only_ids_it_handed_out() {
    let mut reg: TaskRegistry<u32> = TaskRegistry::new();
    assert!(!reg.accepts_id(0));
    let id = reg.allocate_id();
    assert!(reg.accepts_id(id));
    assert!(!reg.accepts_id(id + 1));
}

#[test]
fn concurrency_limit_must_be_positive() {
    assert!(!max_concurrent_is_valid(0));
    assert!(max_concurrent_is_valid(1));
    assert!(max_concurrent_is_valid(DEFAULT_MAX_CONCURRENT));
    assert_eq!(DEFAULT_MAX_CONCURRENT, 64);
}
