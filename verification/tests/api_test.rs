use fibonacci_cli::api::{
    fibonacci_reply, fibonacci_sequence_reply, health_reply, path_param_error, task_created_reply,
    success_status, task_reply,
    ApiError, TaskReply,
};
use fibonacci_cli::concurrent_task_pool::TaskStatus;

#[test]
fn test_fibonacci_10() {
    assert_eq!(success_status(), 200);
    let resp = fibonacci_reply(Some(10)).ok().unwrap();
    assert_eq!(resp.n, 10);
    assert_eq!(resp.result, 55);
}

#[test]
fn fibonacci_reply_for_largest_index() {
    let resp = fibonacci_reply(Some(93)).ok().unwrap();
    assert_eq!(resp.result, 12200160415121876738);
}

#[test]
fn test_fibonacci_100() {
    let err = fibonacci_reply(Some(100)).err().unwrap();
    assert_eq!(err.http_status(), 400);
    assert_eq!(
        err.error,
        "n 过大：第 100 个斐波那契数超出 u64 范围（最大支持 n = 93）"
    );
}

#[test]
fn fibonacci_reply_too_large() {
    let err = fibonacci_reply(Some(94)).err().unwrap();
    assert_eq!(
        err.error,
        "n 过大：第 94 个斐波那契数超出 u64 范围（最大支持 n = 93）"
    );
    let err = fibonacci_reply(Some(u32::MAX)).err().unwrap();
    assert_eq!(
        err.error,
        "n 过大：第 4294967295 个斐波那契数超出 u64 范围（最大支持 n = 93）"
    );
}

#[test]
fn test_fibonacci_abc() {
    let err = fibonacci_reply(None).err().unwrap();
    assert_eq!(err.http_status(), 400);
    assert_eq!(err.error, "路径参数 n 必须是有效的非负整数");
}

#[test]
fn test_fibonacci_sequence_10() {
    assert_eq!(
        fibonacci_sequence_reply(Some(10)).ok().unwrap(),
        vec![0, 1, 1, 2, 3, 5, 8, 13, 21, 34]
    );
}

#[test]
fn sequence_reply_values() {
    assert_eq!(fibonacci_sequence_reply(Some(0)).ok().unwrap(), Vec::<u64>::new());
    assert_eq!(fibonacci_sequence_reply(Some(1)).ok().unwrap(), vec![0]);
    assert_eq!(fibonacci_sequence_reply(Some(94)).ok().unwrap().len(), 94);
}

#[test]
fn sequence_reply_errors() {
    let err = fibonacci_sequence_reply(Some(95)).err().unwrap();
    assert_eq!(
        err.error,
        "n 过大：前 95 个斐波那契数超出 u64 范围（最大支持 n = 94）"
    );
    let err = fibonacci_sequence_reply(None).err().unwrap();
    assert_eq!(err.error, "路径参数 n 必须是有效的非负整数");
}

#[test]
fn path_param_passes_parsed_values() {
    assert_eq!(path_param_error(Some(7u64)).ok(), Some(7));
    let err = path_param_error::<u64>(None).err().unwrap();
    assert_eq!(err.error, "路径参数 n 必须是有效的非负整数");
}

#[test]
fn bad_request_keeps_message() {
    let e = ApiError::bad_request("boom".to_string());
    assert_eq!(e.error, "boom");
}

#[test]
fn test_health() {
    assert_eq!(success_status(), 200);
    assert_eq!(health_reply().status, "ok");
}

#[test]
fn test_task_get_not_found() {
    let r = task_reply(None, None);
    assert!(matches!(r, TaskReply::NotFound));
    assert_eq!(r.http_status(), 404);
    assert_eq!(r.status_label(), "not_found");
}

#[test]
fn task_reply_running() {
    let r = task_reply(Some(TaskStatus::Running), None);
    assert!(matches!(r, TaskReply::Running));
    assert_eq!(r.http_status(), 200);
    assert_eq!(r.status_label(), "running");
}

#[test]
fn task_reply_completed() {
    let r = task_reply(Some(TaskStatus::Completed), Some(3));
    assert!(matches!(r, TaskReply::Completed { result: Some(3) }));
    assert_eq!(r.http_status(), 200);
    assert_eq!(r.status_label(), "completed");
}

#[test]
fn task_created_reply_is_201_with_id() {
    let r = task_created_reply(17);
    assert_eq!(r.task_id, 17);
    assert_eq!(r.http_status(), 201);
}

#[test]
fn errors_are_bad_requests() {
    assert_eq!(ApiError::bad_request("x".to_string()).http_status(), 400);
}
