use jsonld_expansion::http::{
    invalid_data_error, invalid_input_error, response_content_type, status_is_success,
    HttpErrorKind,
};

#[test]
fn error_constructors_keep_kind_and_message() {
    let e = invalid_data_error("bad payload".to_string());
    assert_eq!(e.kind, HttpErrorKind::InvalidData);
    assert_eq!(e.message, "bad payload");
    let e = invalid_input_error("bad request".to_string());
    assert_eq!(e.kind, HttpErrorKind::InvalidInput);
    assert_eq!(e.message, "bad request");
}

#[test]
fn status_classification() {
    assert!(status_is_success(200));
    assert!(status_is_success(204));
    assert!(status_is_success(299));
    assert!(!status_is_success(199));
    assert!(!status_is_success(300));
    assert!(!status_is_success(404));
}

#[test]
fn response_content_type_decides() {
    assert_eq!(
        response_content_type(200, Some("text/turtle".to_string())),
        Ok("text/turtle".to_string())
    );
    let err = response_content_type(500, Some("text/turtle".to_string())).unwrap_err();
    assert_eq!(err.kind, HttpErrorKind::UnexpectedStatus);
    let err = response_content_type(200, None).unwrap_err();
    assert_eq!(err.kind, HttpErrorKind::InvalidData);
}
