use outer::error::AppError;

#[test]
fn test_app_error_display() {
    let err = AppError::NotFound("user".to_string());
    assert_eq!(err.to_string(), "Not found: user");

    let err = AppError::BadRequest("invalid input".to_string());
    assert_eq!(err.to_string(), "Bad request: invalid input");

    let err = AppError::OpenCode("connection failed".to_string());
    assert_eq!(err.to_string(), "OpenCode error: connection failed");

    let err = AppError::Internal("something broke".to_string());
    assert_eq!(err.to_string(), "Internal error: something broke");

    let err = AppError::Database("disk full".to_string());
    assert_eq!(err.to_string(), "Database error: disk full");
}

#[test]
fn test_app_error_debug() {
    let err = AppError::NotFound("test".to_string());
    let debug_str = format!("{:?}", err);
    assert!(debug_str.contains("NotFound"));
}

#[test]
fn test_not_found_into_response() {
    let err = AppError::NotFound("resource".to_string());
    assert_eq!(err.into_response(), (404, "resource".to_string()));
}

#[test]
fn test_bad_request_into_response() {
    let err = AppError::BadRequest("bad data".to_string());
    assert_eq!(err.into_response(), (400, "bad data".to_string()));
}

#[test]
fn test_opencode_into_response() {
    let err = AppError::OpenCode("upstream error".to_string());
    assert_eq!(
        err.into_response(),
        (502, "OpenCode error: upstream error".to_string())
    );
}

#[test]
fn test_internal_into_response() {
    let err = AppError::Internal("internal issue".to_string());
    assert_eq!(err.into_response(), (500, "internal issue".to_string()));
}

#[test]
fn test_database_into_response() {
    let err = AppError::Database("test".to_string());
    assert_eq!(err.into_response(), (500, "Database error".to_string()));
}

fn forty_two() -> outer::error::Result<i32> {
    Ok(42)
}

fn not_found() -> outer::error::Result<i32> {
    Err(AppError::NotFound("test".to_string()))
}

#[test]
fn test_result_type_alias() {
    assert_eq!(forty_two().unwrap(), 42);
    assert!(not_found().is_err());
}
