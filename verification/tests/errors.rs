use hookd::ApiError;

#[test]
fn status_code_of_each_error() {
    assert_eq!(ApiError::InternalServerError("disk full".to_string()).status_code(), 500);
    assert_eq!(ApiError::NotFound("no such hook").status_code(), 404);
    assert_eq!(ApiError::InvalidRange.status_code(), 400);
    assert_eq!(ApiError::RangeNotSatisfiable.status_code(), 416);
}

#[test]
fn message_of_an_internal_error() {
    let error = ApiError::InternalServerError("Couldn't spawn hook command".to_string());
    assert_eq!(error.message(), "Couldn't handle request: Couldn't spawn hook command");
}

#[test]
fn message_of_not_found() {
    let error = ApiError::NotFound("No hook with this name configured");
    assert_eq!(error.message(), "Resource not found: No hook with this name configured");
}

#[test]
fn message_of_the_range_errors() {
    assert_eq!(ApiError::InvalidRange.message(), "Invalid range");
    assert_eq!(ApiError::RangeNotSatisfiable.message(), "Range not satisfiable");
}

#[test]
fn internal_error_from_its_context() {
    assert_eq!(
        ApiError::internal("Couldn't write hook info"),
        ApiError::InternalServerError("Couldn't write hook info".to_string())
    );
}
