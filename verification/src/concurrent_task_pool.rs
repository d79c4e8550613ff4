//! The bookkeeping of a concurrent task pool: the state each task reports,
//! and the registry of live tasks with its id counter.
//!
//! The runtime side (spawning on tokio, the concurrency semaphore that
//! limits how many tasks run at once, the race between completion and
//! cancellation, waiting for results) drives these types; the decisions
//! about which tasks exist, which id comes next, what is handed to a task's
//! tokio handles and what a query answers are made here.
use std::collections::HashMap;
use tokio::sync::watch;
use tokio::task::AbortHandle;
use vstd::prelude::*;
use vstd::std_specs::iter::IteratorSpec;

verus! {

broadcast use vstd::std_specs::hash::group_hash_axioms;

#[verifier::external_type_specification]
#[verifier::external_body]
#[verifier::reject_recursive_types(T)]
pub struct ExWatchSender<T>(watch::Sender<T>);

#[verifier::external_type_specification]
#[verifier::external_body]
pub struct ExAbortHandle(AbortHandle);

/// Unique identifier of a task within its pool.
pub type TaskId = u64;

/// Lifecycle of a task that is still known to its pool.
#[derive(Debug, Clone, Copy, PartialEq, Eq, Structural)]
pub enum TaskStatus {
    /// The task is still running.
    Running,
    /// The task has finished; its result can be read.
    Completed,
}

/// What a task reports while it runs and once it has finished. A running
/// task holds no result.
pub struct TaskState<R> {
    status: TaskStatus,
    result: Option<R>,
}

impl<R> TaskState<R> {
    /// The current status.
    pub closed spec fn current_status(&self) -> TaskStatus {
        self.status
    }

    /// The result the state holds, if any.
    pub closed spec fn stored_result(&self) -> Option<R> {
        self.result
    }

    /// Only a completed task can hold a result.
    pub open spec fn running_holds_no_result(&self) -> bool {
        self.current_status() == TaskStatus::Running ==> self.stored_result() is None
    }

    #[verifier::type_invariant]
    spec fn inv(&self) -> bool {
        self.status == TaskStatus::Running ==> self.result is None
    }

    /// A freshly spawned task: running, no result yet.
    pub fn new() -> (s: Self)
        ensures
            is_new_state(s),
    {
        TaskState { status: TaskStatus::Running, result: None }
    }

    /// Records the value the task produced.
    pub fn complete(&mut self, value: R)
        ensures
            final(self).current_status() == TaskStatus::Completed,
            final(self).stored_result() == Some(value),
            final(self).running_holds_no_result(),
            state_step_holds(*old(self), *final(self), TaskStateStep::Complete),
    {
        *self = TaskState { status: TaskStatus::Completed, result: Some(value) };
    }

    /// The current status.
    pub fn status(&self) -> (s: TaskStatus)
        ensures
            s == self.current_status(),
            self.running_holds_no_result(),
    {
        proof {
            use_type_invariant(self);
        }
        self.status
    }

    /// The stored result, if any, without consuming it: `None` while the
    /// task runs and after the result has been taken.
    pub fn result(&self) -> (r: Option<&R>)
        ensures
            r is Some <==> self.stored_result() is Some,
            r is Some ==> self.stored_result() == Some(*r->0),
            self.current_status() == TaskStatus::Running ==> r is None,
    {
        proof {
            use_type_invariant(self);
        }
        self.result.as_ref()
    }

    /// Hands the stored result out; the state keeps its status but no
    /// longer holds a result.
    pub fn take_result(&mut self) -> (r: Option<R>)
        ensures
            r == old(self).stored_result(),
            final(self).current_status() == old(self).current_status(),
            final(self).stored_result() is None,
            final(self).running_holds_no_result(),
            old(self).current_status() == TaskStatus::Running ==> r is None,
            state_step_holds(*old(self), *final(self), TaskStateStep::TakeResult),
    {
        proof {
            use_type_invariant(&*self);
        }
        let mut emptied = TaskState { status: self.status, result: None };
        std::mem::swap(self, &mut emptied);
        emptied.result
    }
}

/// One operation that changes a task's state, as its contract states it.
pub enum TaskStateStep {
    /// `complete(_)`, or `settle_task` of a finished task.
    Complete,
    /// `take_result()`.
    TakeResult,
}

/// `after` is what `step` leaves of `before`.
pub open spec fn state_step_holds<R>(before: TaskState<R>, after: TaskState<R>, step: TaskStateStep) -> bool {
    match step {
        TaskStateStep::Complete => {
            &&& after.current_status() == TaskStatus::Completed
            &&& after.stored_result() is Some
        },
        TaskStateStep::TakeResult => {
            &&& after.current_status() == before.current_status()
            &&& after.stored_result() is None
        },
    }
}

/// `history[i + 1]` follows from `history[i]` by `steps[i]`, for every step.
pub open spec fn state_follows<R>(history: Seq<TaskState<R>>, steps: Seq<TaskStateStep>) -> bool {
    &&& history.len() == steps.len() + 1
    &&& forall|i: int|
        0 <= i < steps.len() ==> state_step_holds(#[trigger] history[i], history[i + 1], steps[i])
}

/// A state as `TaskState::new` makes it: running, no result.
pub open spec fn is_new_state<R>(s: TaskState<R>) -> bool {
    &&& s.current_status() == TaskStatus::Running
    &&& s.stored_result() is None
}

/// Whether some step completed the task.
pub open spec fn completed_after(steps: Seq<TaskStateStep>) -> bool
    decreases steps.len(),
{
    if steps.len() == 0 {
        false
    } else {
        steps.last() is Complete || completed_after(steps.drop_last())
    }
}

/// Whether the task was completed and its result not taken since.
pub open spec fn result_held_after(steps: Seq<TaskStateStep>) -> bool {
    if steps.len() == 0 {
        false
    } else {
        steps.last() is Complete
    }
}

proof fn lemma_state_at<R>(history: Seq<TaskState<R>>, steps: Seq<TaskStateStep>, i: int)
    requires
        state_follows(history, steps),
        is_new_state(history[0]),
        0 <= i <= steps.len(),
    ensures
        (history[i].current_status() == TaskStatus::Completed) == completed_after(steps.take(i)),
        (history[i].stored_result() is Some) == result_held_after(steps.take(i)),
    decreases i,
{
    if i == 0 {
        assert(steps.take(0).len() == 0);
    } else {
        lemma_state_at(history, steps, i - 1);
        assert(state_step_holds(history[i - 1], history[i], steps[i - 1]));
        assert(steps.take(i).drop_last() == steps.take(i - 1));
        assert(steps.take(i).last() == steps[i - 1]);
    }
}

/// A task reports `Completed` only once it has finished: starting from
/// `TaskState::new`, after any sequence of `complete`, `settle_task` (of a
/// finished task) and `take_result` calls, the status is `Completed` exactly
/// when one of them completed the task, and a result is held exactly when
/// the last of them completed it (no `take_result` since).
pub proof fn law_completed_only_after_finishing<R>(history: Seq<TaskState<R>>, steps: Seq<TaskStateStep>)
    requires
        state_follows(history, steps),
        is_new_state(history[0]),
    ensures
        (history.last().current_status() == TaskStatus::Completed) == completed_after(steps),
        (history.last().stored_result() is Some) == result_held_after(steps),
{
    lemma_state_at(history, steps, steps.len() as int);
    assert(steps.take(steps.len() as int) == steps);
}

/// How a running task ended: cancelled before it finished, or finished
/// with a value.
pub enum TaskOutcome<R> {
    Cancelled,
    Finished(R),
}

/// Settles a task once its race between cancellation and completion is
/// decided. A cancelled task is removed from the registry; a finished one
/// records its value and stays registered, so that its status and result
/// can still be queried.
pub fn settle_task<S, R>(
    registry: &mut TaskRegistry<S>,
    state: &mut TaskState<R>,
    id: TaskId,
    outcome: TaskOutcome<R>,
)
    ensures
        match outcome {
            TaskOutcome::Cancelled => {
                &&& step_holds(*old(registry), *final(registry), RegistryStep::Remove(id))
                &&& final(registry).handoffs() == old(registry).handoffs()
                &&& final(registry).counter_wrapped() == old(registry).counter_wrapped()
                &&& *final(state) == *old(state)
            },
            TaskOutcome::Finished(v) => {
                &&& *final(registry) == *old(registry)
                &&& state_step_holds(*old(state), *final(state), TaskStateStep::Complete)
                &&& final(state).stored_result() == Some(v)
            },
        },
{
    match outcome {
        TaskOutcome::Cancelled => {
            registry.remove(id);
        },
        TaskOutcome::Finished(v) => {
            state.complete(v);
        },
    }
}

/// Calls tokio's `watch::Sender::<bool>::send` with `value`, and records the
/// call (the sender and the value) at the end of `log`. The call returns an
/// error when every receiver has been dropped; that error is discarded, and
/// nothing is stated of the channel's state afterwards. It does not panic.
#[verifier::external_body]
fn watch_send(log: &mut HandoffLog, sender: &watch::Sender<bool>, value: bool)
    ensures
        final(log).calls() == old(log).calls().push(Handoff::Signal(*sender, value)),
    no_unwind
{
    let _ = sender.send(value);
}

/// Calls tokio's `AbortHandle::abort`, which asks the runtime to stop the
/// task, and records the call (the handle) at the end of `log`. Nothing of
/// the call's effect on the task is stated. It does not panic.
#[verifier::external_body]
fn abort_running_task(log: &mut HandoffLog, abort: &AbortHandle)
    ensures
        final(log).calls() == old(log).calls().push(Handoff::Abort(*abort)),
    no_unwind
{
    abort.abort();
}

/// How many tasks a pool runs at once unless told otherwise.
pub const DEFAULT_MAX_CONCURRENT: usize = 64;

/// Whether `max` can be a pool's limit on tasks running at once: it must be
/// positive.
pub fn max_concurrent_is_valid(max: usize) -> (ok: bool)
    ensures
        ok == (max > 0),
{
    max > 0
}

/// The value a task's cancellation channel carries once cancellation is
/// requested (it starts out `false`).
pub const CANCEL_REQUESTED: bool = true;

/// What the pool keeps for each registered task: the cooperative
/// cancellation signal, the forced-abort handle and the shared state.
pub struct TaskEntry<S> {
    pub cancel: watch::Sender<bool>,
    pub abort: AbortHandle,
    pub state: S,
}

/// A call the registry made on a task's tokio handles.
pub enum Handoff {
    /// `send(value)` on a cancellation sender.
    Signal(watch::Sender<bool>, bool),
    /// `abort()` on an abort handle.
    Abort(AbortHandle),
}

/// The record of the calls made on tasks' tokio handles, in order. It is
/// ghost state, with nothing in it at run time; every such call goes
/// through `watch_send` or `abort_running_task`, which append to it.
pub struct HandoffLog {
    recorded: Ghost<Seq<Handoff>>,
}

impl HandoffLog {
    /// The calls recorded so far.
    pub closed spec fn calls(&self) -> Seq<Handoff> {
        self.recorded@
    }
}

/// The cancellation request handed to the task registered under `id`.
pub open spec fn cancel_handoff<S>(entries: Map<TaskId, TaskEntry<S>>, id: TaskId) -> Handoff {
    Handoff::Signal(entries[id].cancel, CANCEL_REQUESTED)
}

/// The abort request handed to the task registered under `id`.
pub open spec fn abort_handoff<S>(entries: Map<TaskId, TaskEntry<S>>, id: TaskId) -> Handoff {
    Handoff::Abort(entries[id].abort)
}

/// The request `cancel_all` (`cancel`) or `abort_all` (`!cancel`) hands to
/// the task registered under `id`.
pub open spec fn request_for<S>(cancel: bool, entries: Map<TaskId, TaskEntry<S>>, id: TaskId) -> Handoff {
    if cancel {
        cancel_handoff(entries, id)
    } else {
        abort_handoff(entries, id)
    }
}

/// The registry of the tasks a pool knows about, keyed by id, together with
/// the counter that hands out ids. Until the counter wraps around (after
/// 2^64 ids), every registered id is below it.
pub struct TaskRegistry<S> {
    tasks: HashMap<TaskId, TaskEntry<S>>,
    next_id: TaskId,
    wrapped: bool,
    handed: HandoffLog,
}

/// The id that follows `id`; the counter wraps around after `u64::MAX`.
pub open spec fn successor_id(id: TaskId) -> TaskId {
    if id < u64::MAX {
        (id + 1) as TaskId
    } else {
        0
    }
}

impl<S> TaskRegistry<S> {
    /// The registered tasks.
    pub closed spec fn entries(&self) -> Map<TaskId, TaskEntry<S>> {
        self.tasks@
    }

    /// The id the next spawned task receives.
    pub closed spec fn next_task_id(&self) -> TaskId {
        self.next_id
    }

    /// Whether the counter has wrapped around from `u64::MAX` to 0.
    pub closed spec fn counter_wrapped(&self) -> bool {
        self.wrapped
    }

    /// Every call this registry has made on tasks' tokio handles, in order.
    pub closed spec fn handoffs(&self) -> Seq<Handoff> {
        self.handed.calls()
    }

    /// Every registered id was handed out before the current counter value.
    pub open spec fn ids_below_counter(&self) -> bool {
        forall|id: TaskId| #[trigger] self.entries().contains_key(id) ==> id < self.next_task_id()
    }

    #[verifier::type_invariant]
    spec fn inv(&self) -> bool {
        self.wrapped || forall|id: TaskId| #[trigger] self.tasks@.contains_key(id) ==> id < self.next_id
    }

    /// An empty registry whose first id is 0.
    pub fn new() -> (r: Self)
        ensures
            is_fresh(r),
            !r.counter_wrapped(),
            r.handoffs() == Seq::<Handoff>::empty(),
    {
        TaskRegistry { tasks: HashMap::new(), next_id: 0, wrapped: false, handed: HandoffLog { recorded: Ghost(Seq::empty()) } }
    }

    /// Until the counter has wrapped around, every registered id is below it.
    pub fn counter_bounds_ids(&self)
        ensures
            !self.counter_wrapped() ==> self.ids_below_counter(),
    {
        proof {
            use_type_invariant(self);
        }
    }

    /// Hands out the next id and advances the counter. Until the counter
    /// wraps around, the id is new: no registered task has it.
    pub fn allocate_id(&mut self) -> (id: TaskId)
        ensures
            step_holds(*old(self), *final(self), RegistryStep::Allocate),
            id == old(self).next_task_id(),
            final(self).counter_wrapped() == (old(self).counter_wrapped() || id == u64::MAX),
            final(self).handoffs() == old(self).handoffs(),
            !old(self).counter_wrapped() ==> !old(self).entries().contains_key(id),
            !final(self).counter_wrapped() ==> final(self).ids_below_counter(),
    {
        proof {
            use_type_invariant(&*self);
        }
        let id = self.next_id;
        if id == u64::MAX {
            self.wrapped = true;
        }
        self.next_id = self.next_id.wrapping_add(1);
        id
    }

    /// Whether `register` accepts `id`: it is below the counter, or the
    /// counter has wrapped around.
    pub fn accepts_id(&self, id: TaskId) -> (b: bool)
        ensures
            b == (self.counter_wrapped() || id < self.next_task_id()),
    {
        self.wrapped || id < self.next_id
    }

    /// Registers `entry` under `id`, replacing any entry already there.
    pub fn register(&mut self, id: TaskId, entry: TaskEntry<S>)
        requires
            old(self).counter_wrapped() || id < old(self).next_task_id(),
        ensures
            step_holds(*old(self), *final(self), RegistryStep::Register(id)),
            final(self).entries() == old(self).entries().insert(id, entry),
            final(self).counter_wrapped() == old(self).counter_wrapped(),
            final(self).handoffs() == old(self).handoffs(),
            !final(self).counter_wrapped() ==> final(self).ids_below_counter(),
    {
        proof {
            use_type_invariant(&*self);
        }
        let mut tasks = HashMap::new();
        std::mem::swap(&mut tasks, &mut self.tasks);
        tasks.insert(id, entry);
        self.tasks = tasks;
    }

    /// Takes the task with `id` out of the registry.
    pub fn remove(&mut self, id: TaskId) -> (r: Option<TaskEntry<S>>)
        ensures
            step_holds(*old(self), *final(self), RegistryStep::Remove(id)),
            r is Some <==> old(self).entries().contains_key(id),
            r is Some ==> r->0 == old(self).entries()[id],
            final(self).counter_wrapped() == old(self).counter_wrapped(),
            final(self).handoffs() == old(self).handoffs(),
            !final(self).counter_wrapped() ==> final(self).ids_below_counter(),
    {
        proof {
            use_type_invariant(&*self);
        }
        let mut tasks = HashMap::new();
        std::mem::swap(&mut tasks, &mut self.tasks);
        let removed = tasks.remove(&id);
        self.tasks = tasks;
        removed
    }

    /// Cooperatively cancels the task with `id` and forgets it: hands
    /// `CANCEL_REQUESTED` to its cancellation sender. Returns whether the
    /// task was registered. That the value reaches the task through tokio's
    /// watch channel is outside the contract.
    pub fn cancel(&mut self, id: TaskId) -> (found: bool)
        ensures
            step_holds(*old(self), *final(self), RegistryStep::Cancel(id)),
            found == old(self).entries().contains_key(id),
            final(self).handoffs() == if found {
                old(self).handoffs().push(cancel_handoff(old(self).entries(), id))
            } else {
                old(self).handoffs()
            },
            final(self).counter_wrapped() == old(self).counter_wrapped(),
            !final(self).counter_wrapped() ==> final(self).ids_below_counter(),
    {
        match self.remove(id) {
            Some(entry) => {
                watch_send(&mut self.handed, &entry.cancel, CANCEL_REQUESTED);
                proof {
                    assert(self.handoffs() =~= old(self).handoffs() + requests_on_removal(
                        true,
                        old(self).entries(),
                        id,
                    ));
                }
                true
            },
            None => {
                proof {
                    assert(self.handoffs() =~= old(self).handoffs() + requests_on_removal(
                        true,
                        old(self).entries(),
                        id,
                    ));
                }
                false
            },
        }
    }

    /// Forcibly aborts the task with `id` and forgets it: calls `abort` on its
    /// abort handle. Returns whether the task was registered. That tokio's
    /// runtime actually stops the task is outside the contract.
    pub fn abort(&mut self, id: TaskId) -> (found: bool)
        ensures
            step_holds(*old(self), *final(self), RegistryStep::Abort(id)),
            found == old(self).entries().contains_key(id),
            final(self).handoffs() == if found {
                old(self).handoffs().push(abort_handoff(old(self).entries(), id))
            } else {
                old(self).handoffs()
            },
            final(self).counter_wrapped() == old(self).counter_wrapped(),
            !final(self).counter_wrapped() ==> final(self).ids_below_counter(),
    {
        match self.remove(id) {
            Some(entry) => {
                abort_running_task(&mut self.handed, &entry.abort);
                proof {
                    assert(self.handoffs() =~= old(self).handoffs() + requests_on_removal(
                        false,
                        old(self).entries(),
                        id,
                    ));
                }
                true
            },
            None => {
                proof {
                    assert(self.handoffs() =~= old(self).handoffs() + requests_on_removal(
                        false,
                        old(self).entries(),
                        id,
                    ));
                }
                false
            },
        }
    }

    /// Makes one request per registered task, then empties the registry.
    fn hand_to_all_and_clear(
        &mut self,
        cancel: bool,
    ) -> (ghost_ids: Ghost<Seq<TaskId>>)
        ensures
            final(self).entries() == Map::<TaskId, TaskEntry<S>>::empty(),
            final(self).next_task_id() == old(self).next_task_id(),
            ghost_ids@.no_duplicates(),
            ghost_ids@.to_set() == old(self).entries().dom(),
            final(self).handoffs() == old(self).handoffs() + ghost_ids@.map_values(
                |id: TaskId| request_for(cancel, old(self).entries(), id),
            ),
            final(self).counter_wrapped() == old(self).counter_wrapped(),
    {
        proof {
            use_type_invariant(&*self);
        }
        let ghost before = self.tasks@;
        let ghost start = self.handed.calls();
        let ghost counter = self.next_id;
        let ghost wrapped = self.wrapped;
        let ghost ids = vstd::std_specs::hash::spec_keys_iter(&self.tasks).remaining().unref();
        proof {
            assert(ids.take(0) =~= Seq::<TaskId>::empty());
        }
        let mut seen: Ghost<Seq<TaskId>> = Ghost(Seq::empty());
        for k in it: self.tasks.keys()
            invariant
                self.tasks@ == before,
                it.seq().unref() == ids,
                seen@ == ids.take(it.index()),
                ids.to_set() == before.dom(),
                ids.no_duplicates(),
                self.next_id == counter,
                self.wrapped == wrapped,
                wrapped || forall|id: TaskId| #[trigger] before.contains_key(id) ==> id < counter,
                self.handed.calls() == start + it.seq().unref().take(it.index()).map_values(|id: TaskId| request_for(cancel, before, id)),
        {
            proof {
                assert(ids[it.index()] == *k);
                assert(ids.contains(*k));
                assert(ids.to_set().contains(*k));
                assert(ids.take(it.index() + 1).map_values(|id: TaskId| request_for(cancel, before, id)) =~= ids.take(it.index()).map_values(
                    |id: TaskId| request_for(cancel, before, id),
                ).push(request_for(cancel, before, *k)));
            }
            match self.tasks.get(k) {
                Some(entry) => {
                    let ghost prefix = self.handed.calls();
                    if cancel {
                        watch_send(&mut self.handed, &entry.cancel, CANCEL_REQUESTED);
                    } else {
                        abort_running_task(&mut self.handed, &entry.abort);
                    }
                    proof {
                        assert(*entry == before[*k]);
                        if cancel {
                            assert(request_for(cancel, before, *k) == cancel_handoff(before, *k));
                            assert(self.handed.calls().last() == cancel_handoff(before, *k));
                        } else {
                            assert(request_for(cancel, before, *k) == abort_handoff(before, *k));
                            assert(self.handed.calls().last() == abort_handoff(before, *k));
                        }
                        assert(self.handed.calls() =~= prefix.push(request_for(cancel, before, *k)));
                        assert(self.handed.calls() =~= start + ids.take(it.index() + 1).map_values(|id: TaskId| request_for(cancel, before, id)));
                    }
                },
                None => {
                    assert(false);
                },
            }
            seen = Ghost(seen@.push(*k));
            proof {
                assert(seen@ =~= ids.take(it.index() + 1));
            }
        }
        self.tasks = HashMap::new();
        proof {
            assert(ids.take(ids.len() as int) == ids);
        }
        seen
    }

    /// Cooperatively cancels every registered task and empties the
    /// registry: hands `CANCEL_REQUESTED` to each task's cancellation sender,
    /// once per task. That the value reaches the tasks is outside the
    /// contract.
    pub fn cancel_all(&mut self)
        ensures
            step_holds(*old(self), *final(self), RegistryStep::CancelAll),
            exists|ids: Seq<TaskId>|
                #![trigger ids.to_set()]
                ids.no_duplicates() && ids.to_set() == old(self).entries().dom()
                    && final(self).handoffs() == old(self).handoffs() + ids.map_values(
                    |id: TaskId| cancel_handoff(old(self).entries(), id),
                ),
            final(self).counter_wrapped() == old(self).counter_wrapped(),
            final(self).ids_below_counter(),
    {
        let ghost_ids = self.hand_to_all_and_clear(true);
        proof {
            let ids = ghost_ids@;
            assert(ids.map_values(|id: TaskId| request_for(true, old(self).entries(), id))
                =~= ids.map_values(|id: TaskId| cancel_handoff(old(self).entries(), id)));
            assert(ids.to_set() == old(self).entries().dom());
        }
    }

    /// Forcibly aborts every registered task and empties the registry: calls
    /// `abort` on each task's abort handle, once per task. That the runtime
    /// stops the tasks is outside the contract.
    pub fn abort_all(&mut self)
        ensures
            step_holds(*old(self), *final(self), RegistryStep::AbortAll),
            exists|ids: Seq<TaskId>|
                #![trigger ids.to_set()]
                ids.no_duplicates() && ids.to_set() == old(self).entries().dom()
                    && final(self).handoffs() == old(self).handoffs() + ids.map_values(
                    |id: TaskId| abort_handoff(old(self).entries(), id),
                ),
            final(self).counter_wrapped() == old(self).counter_wrapped(),
            final(self).ids_below_counter(),
    {
        let ghost_ids = self.hand_to_all_and_clear(false);
        proof {
            let ids = ghost_ids@;
            assert(ids.map_values(|id: TaskId| request_for(false, old(self).entries(), id))
                =~= ids.map_values(|id: TaskId| abort_handoff(old(self).entries(), id)));
            assert(ids.to_set() == old(self).entries().dom());
        }
    }

    /// The shared state of the task with `id`, if it is registered.
    pub fn state(&self, id: TaskId) -> (r: Option<&S>)
        ensures
            r is Some <==> self.entries().contains_key(id),
            r is Some ==> *r->0 == self.entries()[id].state,
    {
        match self.tasks.get(&id) {
            Some(entry) => Some(&entry.state),
            None => None,
        }
    }

    /// The number of registered tasks, completed ones included.
    pub fn len(&self) -> (n: usize)
        ensures
            n == self.entries().len(),
    {
        self.tasks.len()
    }

    /// Whether no task is registered.
    pub fn is_empty(&self) -> (b: bool)
        ensures
            b <==> self.entries().len() == 0,
    {
        self.len() == 0
    }
}

/// One mutating operation on a registry, as its contract states it.
pub enum RegistryStep {
    /// `allocate_id`.
    Allocate,
    /// `register(id, _)`.
    Register(TaskId),
    /// `remove(id)`, or `settle_task` of a cancelled task.
    Remove(TaskId),
    /// `cancel(id)`.
    Cancel(TaskId),
    /// `abort(id)`.
    Abort(TaskId),
    /// `cancel_all()`.
    CancelAll,
    /// `abort_all()`.
    AbortAll,
}

/// The requests a removal hands out: one to the task under `id` if it was
/// registered, none otherwise.
pub open spec fn requests_on_removal<S>(
    cancel: bool,
    entries: Map<TaskId, TaskEntry<S>>,
    id: TaskId,
) -> Seq<Handoff> {
    if entries.contains_key(id) {
        seq![request_for(cancel, entries, id)]
    } else {
        Seq::empty()
    }
}

/// `after` is what the operation `step` leaves of `before` (the
/// postconditions of the operations above; `settle_task` of a finished task
/// leaves the registry as it was and is no step).
pub open spec fn step_holds<S>(before: TaskRegistry<S>, after: TaskRegistry<S>, step: RegistryStep) -> bool {
    match step {
        RegistryStep::Allocate => {
            &&& after.entries() == before.entries()
            &&& after.next_task_id() == successor_id(before.next_task_id())
            &&& after.handoffs() == before.handoffs()
        },
        RegistryStep::Register(id) => {
            &&& after.entries().contains_key(id)
            &&& after.entries() == before.entries().insert(id, after.entries()[id])
            &&& after.next_task_id() == before.next_task_id()
            &&& after.handoffs() == before.handoffs()
        },
        RegistryStep::Remove(id) => {
            &&& after.entries() == before.entries().remove(id)
            &&& after.next_task_id() == before.next_task_id()
            &&& after.handoffs() == before.handoffs()
        },
        RegistryStep::Cancel(id) => {
            &&& after.entries() == before.entries().remove(id)
            &&& after.next_task_id() == before.next_task_id()
            &&& after.handoffs() == before.handoffs() + requests_on_removal(true, before.entries(), id)
        },
        RegistryStep::Abort(id) => {
            &&& after.entries() == before.entries().remove(id)
            &&& after.next_task_id() == before.next_task_id()
            &&& after.handoffs() == before.handoffs() + requests_on_removal(false, before.entries(), id)
        },
        RegistryStep::CancelAll => {
            &&& after.entries() == Map::<TaskId, TaskEntry<S>>::empty()
            &&& after.next_task_id() == before.next_task_id()
            &&& exists|ids: Seq<TaskId>|
                #![trigger ids.to_set()]
                ids.no_duplicates() && ids.to_set() == before.entries().dom() && after.handoffs()
                    == before.handoffs() + ids.map_values(|id: TaskId| request_for(true, before.entries(), id))
        },
        RegistryStep::AbortAll => {
            &&& after.entries() == Map::<TaskId, TaskEntry<S>>::empty()
            &&& after.next_task_id() == before.next_task_id()
            &&& exists|ids: Seq<TaskId>|
                #![trigger ids.to_set()]
                ids.no_duplicates() && ids.to_set() == before.entries().dom() && after.handoffs()
                    == before.handoffs() + ids.map_values(|id: TaskId| request_for(false, before.entries(), id))
        },
    }
}

/// `history[i + 1]` follows from `history[i]` by `steps[i]`, for every step.
pub open spec fn follows<S>(history: Seq<TaskRegistry<S>>, steps: Seq<RegistryStep>) -> bool {
    &&& history.len() == steps.len() + 1
    &&& forall|i: int| 0 <= i < steps.len() ==> step_holds(#[trigger] history[i], history[i + 1], steps[i])
}

/// A registry as `TaskRegistry::new` makes it.
pub open spec fn is_fresh<S>(r: TaskRegistry<S>) -> bool {
    &&& r.entries() == Map::<TaskId, TaskEntry<S>>::empty()
    &&& r.next_task_id() == 0
}

/// How many ids the steps hand out.
pub open spec fn allocations(steps: Seq<RegistryStep>) -> nat
    decreases steps.len(),
{
    if steps.len() == 0 {
        0
    } else {
        allocations(steps.drop_last()) + if steps.last() is Allocate { 1nat } else { 0nat }
    }
}

/// Whether `id` is registered after the steps, starting from an empty
/// registry: it was registered, and neither removed nor cleared since.
pub open spec fn registered_after(steps: Seq<RegistryStep>, id: TaskId) -> bool
    decreases steps.len(),
{
    if steps.len() == 0 {
        false
    } else {
        match steps.last() {
            RegistryStep::Allocate => registered_after(steps.drop_last(), id),
            RegistryStep::Register(k) => k == id || registered_after(steps.drop_last(), id),
            RegistryStep::Remove(k) => k != id && registered_after(steps.drop_last(), id),
            RegistryStep::Cancel(k) => k != id && registered_after(steps.drop_last(), id),
            RegistryStep::Abort(k) => k != id && registered_after(steps.drop_last(), id),
            RegistryStep::CancelAll => false,
            RegistryStep::AbortAll => false,
        }
    }
}

proof fn lemma_allocations_prefix(steps: Seq<RegistryStep>, i: int, j: int)
    requires
        0 <= i <= j <= steps.len(),
    ensures
        allocations(steps.take(i)) <= allocations(steps.take(j)),
        i < j && steps[i] is Allocate ==> allocations(steps.take(i)) < allocations(steps.take(j)),
    decreases j - i,
{
    if i < j {
        lemma_allocations_prefix(steps, i, j - 1);
        assert(steps.take(j).drop_last() == steps.take(j - 1));
        if i == j - 1 {
            assert(steps.take(j).last() == steps[i]);
        }
    }
}

proof fn lemma_counter_at<S>(history: Seq<TaskRegistry<S>>, steps: Seq<RegistryStep>, i: int)
    requires
        follows(history, steps),
        is_fresh(history[0]),
        allocations(steps) <= u64::MAX,
        0 <= i <= steps.len(),
    ensures
        history[i].next_task_id() == allocations(steps.take(i)),
    decreases i,
{
    if i == 0 {
        assert(steps.take(0).len() == 0);
    } else {
        lemma_counter_at(history, steps, i - 1);
        assert(step_holds(history[i - 1], history[i], steps[i - 1]));
        assert(steps.take(i).drop_last() == steps.take(i - 1));
        lemma_allocations_prefix(steps, i, steps.len() as int);
        assert(steps.take(steps.len() as int) == steps);
    }
}

/// Ids count up and are never reused: in a fresh registry, after any
/// sequence of operations, the counter equals the number of ids handed out
/// so far, so the `k`-th id handed out is `k - 1`, and ids handed out at two
/// different allocations differ, whatever was registered, removed, cancelled,
/// aborted or cleared in between. This holds for the first 2^64 - 1
/// allocations; the counter then wraps around to 0.
pub proof fn law_ids_count_up_and_are_never_reused<S>(history: Seq<TaskRegistry<S>>, steps: Seq<RegistryStep>)
    requires
        follows(history, steps),
        is_fresh(history[0]),
        allocations(steps) <= u64::MAX,
    ensures
        forall|i: int| 0 <= i <= steps.len() ==> #[trigger] history[i].next_task_id() == allocations(steps.take(i)),
        forall|i: int, j: int|
            0 <= i < j < steps.len() && steps[i] is Allocate && steps[j] is Allocate
                ==> #[trigger] history[i].next_task_id() != #[trigger] history[j].next_task_id(),
{
    assert forall|i: int| 0 <= i <= steps.len() implies #[trigger] history[i].next_task_id() == allocations(steps.take(i)) by {
        lemma_counter_at(history, steps, i);
    }
    assert forall|i: int, j: int|
        0 <= i < j < steps.len() && steps[i] is Allocate && steps[j] is Allocate
            implies #[trigger] history[i].next_task_id() != #[trigger] history[j].next_task_id() by {
        lemma_counter_at(history, steps, i);
        lemma_counter_at(history, steps, j);
        lemma_allocations_prefix(steps, i, j);
    }
}

proof fn lemma_registered_at<S>(history: Seq<TaskRegistry<S>>, steps: Seq<RegistryStep>, id: TaskId, i: int)
    requires
        follows(history, steps),
        is_fresh(history[0]),
        0 <= i <= steps.len(),
    ensures
        history[i].entries().contains_key(id) == registered_after(steps.take(i), id),
    decreases i,
{
    if i == 0 {
        assert(steps.take(0).len() == 0);
    } else {
        lemma_registered_at(history, steps, id, i - 1);
        assert(step_holds(history[i - 1], history[i], steps[i - 1]));
        assert(steps.take(i).drop_last() == steps.take(i - 1));
        assert(steps.take(i).last() == steps[i - 1]);
    }
}

/// A task is known to the pool exactly while it is registered: in a fresh
/// registry, after any sequence of operations, an id is registered (so
/// `state(id)`, and with it the pool's status query, gives `Some`) exactly
/// when some step registered it and no later step removed it (cancel,
/// abort, removal on cancellation) or cleared the registry (cancel_all,
/// abort_all). An id never registered gives `None`.
pub proof fn law_registered_until_removed<S>(history: Seq<TaskRegistry<S>>, steps: Seq<RegistryStep>, id: TaskId)
    requires
        follows(history, steps),
        is_fresh(history[0]),
    ensures
        history.last().entries().contains_key(id) == registered_after(steps, id),
{
    lemma_registered_at(history, steps, id, steps.len() as int);
    assert(steps.take(steps.len() as int) == steps);
}

/// What the pool's status query answers for a task: `None` when the task is
/// not registered, otherwise the status of its state.
pub open spec fn pool_status<R>(registered: bool, state: TaskState<R>) -> Option<TaskStatus> {
    if registered {
        Some(state.current_status())
    } else {
        None
    }
}

/// The status the pool reports for a task over its whole life: starting
/// from a fresh registry and a fresh task state, after any sequence of
/// registry operations and of operations on the task's state, the answer is
/// `None` exactly when the id is not registered (never registered, or
/// removed or cleared since), and otherwise `Completed` exactly when the task
/// was completed (it finished and `settle_task` or `complete` recorded it),
/// `Running` before that.
pub proof fn law_pool_status<S, R>(
    registry_history: Seq<TaskRegistry<S>>,
    registry_steps: Seq<RegistryStep>,
    id: TaskId,
    state_history: Seq<TaskState<R>>,
    state_steps: Seq<TaskStateStep>,
)
    requires
        follows(registry_history, registry_steps),
        is_fresh(registry_history[0]),
        state_follows(state_history, state_steps),
        is_new_state(state_history[0]),
    ensures
        pool_status(registry_history.last().entries().contains_key(id), state_history.last()) == if registered_after(
            registry_steps,
            id,
        ) {
            Some(
                if completed_after(state_steps) {
                    TaskStatus::Completed
                } else {
                    TaskStatus::Running
                },
            )
        } else {
            None
        },
{
    law_registered_until_removed(registry_history, registry_steps, id);
    law_completed_only_after_finishing(state_history, state_steps);
}

/// Whether `step` hands requests to tasks, and which kind: the cancellation
/// value (`Some(true)`), an abort (`Some(false)`), or none at all (`None`).
pub open spec fn request_kind(step: RegistryStep) -> Option<bool> {
    match step {
        RegistryStep::Cancel(_) | RegistryStep::CancelAll => Some(true),
        RegistryStep::Abort(_) | RegistryStep::AbortAll => Some(false),
        _ => None,
    }
}

/// `new_calls` is exactly one request of the given kind for each task
/// registered in `before` and not in `after`, each made on that task's own
/// sender or abort handle, in some order.
pub open spec fn one_request_per_removed_task<S>(
    before: TaskRegistry<S>,
    after: TaskRegistry<S>,
    cancel: bool,
    new_calls: Seq<Handoff>,
) -> bool {
    exists|targets: Seq<TaskId>|
        #![trigger targets.to_set()]
        targets.no_duplicates() && targets.to_set() == before.entries().dom().difference(
            after.entries().dom(),
        ) && new_calls == targets.map_values(|k: TaskId| request_for(cancel, before.entries(), k))
}

proof fn lemma_single_removal_requests<S>(
    before: TaskRegistry<S>,
    after: TaskRegistry<S>,
    id: TaskId,
    cancel: bool,
)
    requires
        after.entries() == before.entries().remove(id),
        after.handoffs() == before.handoffs() + requests_on_removal(cancel, before.entries(), id),
    ensures
        one_request_per_removed_task(
            before,
            after,
            cancel,
            after.handoffs().skip(before.handoffs().len() as int),
        ),
{
    let b = before.handoffs();
    let a = after.handoffs();
    let new_calls = a.skip(b.len() as int);
    assert(new_calls =~= requests_on_removal(cancel, before.entries(), id));
    let removed = before.entries().dom().difference(after.entries().dom());
    let targets = if before.entries().contains_key(id) {
        seq![id]
    } else {
        Seq::<TaskId>::empty()
    };
    assert forall|x: TaskId| targets.to_set().contains(x) <==> removed.contains(x) by {
        if before.entries().contains_key(id) {
            assert(targets[0] == id);
            assert(targets.contains(id));
        }
    }
    assert(targets.to_set() =~= removed);
    assert(new_calls =~= targets.map_values(|k: TaskId| request_for(cancel, before.entries(), k)));
}

/// Requests go to removed tasks only, one each. Every operation only adds
/// to the record of calls on tasks' tokio handles, and:
/// - `allocate_id`, `register` and `remove` (and so settling a cancelled
///   task) make no call at all: the tasks they leave registered keep
///   running;
/// - `cancel(id)`, `abort(id)`, `cancel_all` and `abort_all` make exactly
///   one call per task they remove, on that task's own sender (with the
///   cancellation value) or abort handle, and none on a task that stays
///   registered.
pub proof fn law_requests_go_only_to_removed_tasks<S>(
    before: TaskRegistry<S>,
    after: TaskRegistry<S>,
    step: RegistryStep,
)
    requires
        step_holds(before, after, step),
    ensures
        before.handoffs().len() <= after.handoffs().len(),
        after.handoffs().subrange(0, before.handoffs().len() as int) == before.handoffs(),
        request_kind(step) is None ==> after.handoffs() == before.handoffs(),
        request_kind(step) matches Some(cancel) ==> one_request_per_removed_task(
            before,
            after,
            cancel,
            after.handoffs().skip(before.handoffs().len() as int),
        ),
{
    let b = before.handoffs();
    let a = after.handoffs();
    match step {
        RegistryStep::Cancel(id) => {
            lemma_single_removal_requests(before, after, id, true);
        },
        RegistryStep::Abort(id) => {
            lemma_single_removal_requests(before, after, id, false);
        },
        RegistryStep::CancelAll | RegistryStep::AbortAll => {
            let cancel = request_kind(step)->0;
            let ids = choose|ids: Seq<TaskId>|
                #![trigger ids.to_set()]
                ids.no_duplicates() && ids.to_set() == before.entries().dom() && a == b
                    + ids.map_values(|id: TaskId| request_for(cancel, before.entries(), id));
            let removed = before.entries().dom().difference(after.entries().dom());
            assert(removed =~= ids.to_set());
            assert(a.skip(b.len() as int) =~= ids.map_values(
                |id: TaskId| request_for(cancel, before.entries(), id),
            ));
        },
        _ => {},
    }
    assert(a.subrange(0, b.len() as int) =~= b);
}

/// Settling a task touches no other task: whether it finished or was
/// cancelled, no call is made on any task's tokio handles, and every other
/// task stays registered with the same entry; a finished task itself stays
/// registered too (its status and result remain queryable), a cancelled one
/// is removed.
pub proof fn law_settling_touches_only_its_own_task<S>(
    before: TaskRegistry<S>,
    after: TaskRegistry<S>,
    id: TaskId,
    finished: bool,
)
    requires
        finished ==> after == before,
        !finished ==> step_holds(before, after, RegistryStep::Remove(id)),
    ensures
        after.handoffs() == before.handoffs(),
        forall|k: TaskId|
            k != id ==> (#[trigger] after.entries().contains_key(k) == before.entries().contains_key(k))
                && (before.entries().contains_key(k) ==> after.entries()[k] == before.entries()[k]),
        finished ==> after.entries() == before.entries(),
        !finished ==> !after.entries().contains_key(id),
{
}

/// A cancelled or aborted task is forgotten: once `cancel(id)` or
/// `abort(id)` has run, looking `id` up finds nothing, the pool holds one
/// task fewer if `id` was registered, and every other task is untouched.
pub proof fn law_removed_task_is_forgotten<S>(before: TaskRegistry<S>, after: TaskRegistry<S>, id: TaskId)
    requires
        after.entries() == before.entries().remove(id),
    ensures
        !after.entries().contains_key(id),
        after.entries().len() == if before.entries().contains_key(id) {
            before.entries().len() - 1
        } else {
            before.entries().len() as int
        },
        forall|other: TaskId|
            other != id ==> (#[trigger] after.entries().contains_key(other)
                <==> before.entries().contains_key(other)),
{
    assert(before.entries().dom().finite()) by {
        vstd::std_specs::hash::axiom_hashmap_view_finite_dom(before.tasks);
    }
}

/// A spawn adds a task without displacing any other: when `allocate_id`
/// hands out `id` and the task is then registered under it, the id was not
/// registered before, the pool holds one task more, and every registered id
/// is still below the counter. This holds while the counter has not reached
/// `u64::MAX` (after 2^64 spawns it wraps around to 0).
pub proof fn law_spawn_adds_a_new_task<S>(
    before: TaskRegistry<S>,
    allocated: TaskRegistry<S>,
    after: TaskRegistry<S>,
    id: TaskId,
    entry: TaskEntry<S>,
)
    requires
        before.ids_below_counter(),
        before.next_task_id() < u64::MAX,
        id == before.next_task_id(),
        allocated.next_task_id() == successor_id(id),
        allocated.entries() == before.entries(),
        after.entries() == allocated.entries().insert(id, entry),
        after.next_task_id() == allocated.next_task_id(),
    ensures
        !before.entries().contains_key(id),
        after.entries().len() == before.entries().len() + 1,
        after.entries()[id] == entry,
        forall|other: TaskId|
            other != id ==> (#[trigger] after.entries().contains_key(other)
                <==> before.entries().contains_key(other)),
        after.ids_below_counter(),
{
    assert(before.entries().dom().finite()) by {
        vstd::std_specs::hash::axiom_hashmap_view_finite_dom(before.tasks);
    }
}

} // verus!
