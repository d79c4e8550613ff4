//! Fibonacci numbers and the bookkeeping of a concurrent task pool, with
//! contracts proved by Verus.
pub mod api;
pub mod concurrent_task_pool;
pub mod utils;
