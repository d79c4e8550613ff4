//! What the HTTP endpoints answer: the bodies and status codes that the
//! handlers send back, decided from the parsed request and the pool's
//! answers.
use crate::concurrent_task_pool::TaskStatus;
use crate::utils::{fib, fibonacci_checked, lemma_fib_fits_u64, fibonacci_sequence_checked, MAX_FIB_INDEX};
use vstd::prelude::*;
use vstd::string::*;

verus! {

/// The character of a decimal digit `d < 10`.
pub open spec fn digit_char(d: nat) -> char {
    ((48 + d) as u32) as char
}

/// The decimal representation of `n`, most significant digit first, with no
/// leading zeros.
pub open spec fn decimal_digits(n: nat) -> Seq<char>
    decreases n,
{
    if n < 10 {
        seq![digit_char(n)]
    } else {
        decimal_digits(n / 10) + seq![digit_char(n % 10)]
    }
}

/// The one-character string of the decimal digit `d < 10`.
fn digit_str(d: u32) -> (r: &'static str)
    requires
        d < 10,
    ensures
        r@ == seq![digit_char(d as nat)],
{
    proof {
        reveal_strlit("0");
        reveal_strlit("1");
        reveal_strlit("2");
        reveal_strlit("3");
        reveal_strlit("4");
        reveal_strlit("5");
        reveal_strlit("6");
        reveal_strlit("7");
        reveal_strlit("8");
        reveal_strlit("9");
    }
    match d {
        0 => "0",
        1 => "1",
        2 => "2",
        3 => "3",
        4 => "4",
        5 => "5",
        6 => "6",
        7 => "7",
        8 => "8",
        _ => "9",
    }
}

/// Appends the decimal representation of `n` to `s`.
fn append_decimal(s: &mut String, n: u32)
    ensures
        final(s)@ == old(s)@ + decimal_digits(n as nat),
    decreases n,
{
    if n >= 10 {
        append_decimal(s, n / 10);
    }
    s.append(digit_str(n % 10));
    proof {
        if n >= 10 {
            assert(decimal_digits(n as nat) == decimal_digits((n / 10) as nat) + seq![digit_char((n % 10) as nat)]);
        }
    }
}

/// The error body `{"error": "..."}` returned with status 400.
pub struct ApiError {
    /// What went wrong.
    pub error: String,
}

impl ApiError {
    /// A 400 Bad Request error with the given description.
    pub fn bad_request(msg: String) -> (e: ApiError)
        ensures
            e.error@ == msg@,
    {
        ApiError { error: msg }
    }

    /// The HTTP status code an error is answered with: 400 Bad Request.
    pub fn http_status(&self) -> (code: u16)
        ensures
            code == 400,
    {
        400
    }
}

/// The description sent when a path parameter is not a non-negative integer.
pub open spec fn invalid_param_message() -> Seq<char> {
    "路径参数 n 必须是有效的非负整数"@
}

/// The description sent when `fib(n)` does not fit in a `u64`.
pub open spec fn fib_too_large_message(n: nat) -> Seq<char> {
    "n 过大：第 "@ + decimal_digits(n) + " 个斐波那契数超出 u64 范围（最大支持 n = 93）"@
}

/// The description sent when the first `n` Fibonacci numbers do not all fit
/// in a `u64`.
pub open spec fn sequence_too_large_message(n: nat) -> Seq<char> {
    "n 过大：前 "@ + decimal_digits(n) + " 个斐波那契数超出 u64 范围（最大支持 n = 94）"@
}

/// Turns a path parameter that could not be parsed (`None`) into the 400
/// error, and passes a parsed one through.
pub fn path_param_error<T>(parsed: Option<T>) -> (r: Result<T, ApiError>)
    ensures
        parsed matches Some(v) ==> r == Ok::<T, ApiError>(v),
        parsed is None ==> (r matches Err(e) && e.error@ == invalid_param_message()),
{
    match parsed {
        Some(v) => Ok(v),
        None => Err(ApiError::bad_request("路径参数 n 必须是有效的非负整数".to_owned())),
    }
}

/// The HTTP status code of a successful Fibonacci, sequence or health
/// reply: 200 OK.
pub fn success_status() -> (code: u16)
    ensures
        code == 200,
{
    200
}

/// The body of a successful `GET /fibonacci/{n}`.
pub struct FibResponse {
    /// The requested index.
    pub n: u32,
    /// The `n`-th Fibonacci number.
    pub result: u64,
}

/// The body of `GET /health`.
pub struct HealthResponse {
    /// The service state.
    pub status: String,
}

/// The answer to `GET /fibonacci/{n}`, given the path parameter as parsed
/// (`None` when it is not a valid `u32`).
pub fn fibonacci_reply(parsed: Option<u32>) -> (r: Result<FibResponse, ApiError>)
    ensures
        match parsed {
            None => (r matches Err(e) && e.error@ == invalid_param_message()),
            Some(n) => if n <= MAX_FIB_INDEX {
                (r matches Ok(resp) && resp.n == n && resp.result == fib(n as nat))
            } else {
                (r matches Err(e) && e.error@ == fib_too_large_message(n as nat))
            },
        },
{
    let n = match path_param_error(parsed) {
        Ok(n) => n,
        Err(e) => {
            return Err(e);
        },
    };
    proof {
        lemma_fib_fits_u64(n as nat);
    }
    match fibonacci_checked(n) {
        Some(result) => Ok(FibResponse { n, result }),
        None => {
            let mut msg = "n 过大：第 ".to_owned();
            append_decimal(&mut msg, n);
            msg.append(" 个斐波那契数超出 u64 范围（最大支持 n = 93）");
            Err(ApiError::bad_request(msg))
        },
    }
}

/// The answer to `GET /fibonacci/sequence/{n}`, given the path parameter as
/// parsed (`None` when it is not a valid `u32`).
pub fn fibonacci_sequence_reply(parsed: Option<u32>) -> (r: Result<Vec<u64>, ApiError>)
    ensures
        match parsed {
            None => (r matches Err(e) && e.error@ == invalid_param_message()),
            Some(n) => if n <= MAX_FIB_INDEX + 1 {
                (r matches Ok(s) && s@.len() == n && forall|i: int|
                    0 <= i < n ==> s@[i] == fib(i as nat))
            } else {
                (r matches Err(e) && e.error@ == sequence_too_large_message(n as nat))
            },
        },
{
    let n = match path_param_error(parsed) {
        Ok(n) => n,
        Err(e) => {
            return Err(e);
        },
    };
    match fibonacci_sequence_checked(n) {
        Some(s) => Ok(s),
        None => {
            let mut msg = "n 过大：前 ".to_owned();
            append_decimal(&mut msg, n);
            msg.append(" 个斐波那契数超出 u64 范围（最大支持 n = 94）");
            Err(ApiError::bad_request(msg))
        },
    }
}

/// The answer to `GET /health`: `{"status": "ok"}`.
pub fn health_reply() -> (r: HealthResponse)
    ensures
        r.status@ == "ok"@,
{
    HealthResponse { status: "ok".to_owned() }
}

/// What `POST /task` answers once the task is submitted: 201 Created with
/// `{"task_id": ...}`.
pub struct TaskCreated {
    /// The id the pool gave the new task.
    pub task_id: u64,
}

impl TaskCreated {
    /// The HTTP status code of the reply: 201 Created.
    pub fn http_status(&self) -> (code: u16)
        ensures
            code == 201,
    {
        201
    }
}

/// The answer to `POST /task` for a task the pool registered under `task_id`.
pub fn task_created_reply(task_id: u64) -> (r: TaskCreated)
    ensures
        r.task_id == task_id,
{
    TaskCreated { task_id }
}

/// What `GET /task/{id}` answers.
pub enum TaskReply {
    /// 404 with `{"status": "not_found"}`.
    NotFound,
    /// 200 with `{"status": "running"}`.
    Running,
    /// 200 with `{"status": "completed", "result": ...}`.
    Completed { result: Option<u64> },
}

impl TaskReply {
    /// The HTTP status code of the reply.
    pub fn http_status(&self) -> (code: u16)
        ensures
            code == (if self is NotFound { 404u16 } else { 200u16 }),
    {
        match self {
            TaskReply::NotFound => 404,
            _ => 200,
        }
    }

    /// The value of the `status` field of the body.
    pub fn status_label(&self) -> (label: &'static str)
        ensures
            label@ == (match self {
                TaskReply::NotFound => "not_found"@,
                TaskReply::Running => "running"@,
                TaskReply::Completed { .. } => "completed"@,
            }),
    {
        match self {
            TaskReply::NotFound => "not_found",
            TaskReply::Running => "running",
            TaskReply::Completed { .. } => "completed",
        }
    }
}

/// The answer to `GET /task/{id}`, given what the pool reports for the id:
/// its status (`None` when the pool does not know it) and, for a completed
/// task, the result it holds as a `u64`.
pub fn task_reply(status: Option<TaskStatus>, result: Option<u64>) -> (r: TaskReply)
    ensures
        r == (match status {
            None => TaskReply::NotFound,
            Some(TaskStatus::Running) => TaskReply::Running,
            Some(TaskStatus::Completed) => TaskReply::Completed { result },
        }),
{
    match status {
        None => TaskReply::NotFound,
        Some(TaskStatus::Running) => TaskReply::Running,
        Some(TaskStatus::Completed) => TaskReply::Completed { result },
    }
}

} // verus!
