# fibonacci_cli

An HTTP service for Fibonacci numbers and a concurrent task pool, with its
logic verified by Verus.

- `src/utils.rs`: the Fibonacci sequence as a spec function, and four ways to
  compute it in `u64` (iterative, checked, memoised, matrix fast power), each
  proved equal to the spec, with the `u64` boundary (`n <= 93`) proved.
- `src/concurrent_task_pool.rs`: the bookkeeping of the task pool: the state
  of each task (running / completed with a result; a running task holds no
  result), the registry of live tasks with its id counter (every registered
  id is below the counter until it wraps), cancellation and abort with a
  ghost record of what is handed to each task's tokio handles, the step that
  settles a task once it is cancelled or finished, and laws over whole
  histories of registry and task-state operations.
- `src/api.rs`: what each HTTP endpoint answers: bodies, error messages, and
  the status codes of errors (400) and of the task endpoints (201, 200, 404);
  successful Fibonacci and health replies go out with axum's default 200.
- `app/`: the axum router, the tokio runtime side of the pool (spawning, the
  concurrency semaphore, waiting for results), logging and `main`.
- `tests/`: tests of the library.
