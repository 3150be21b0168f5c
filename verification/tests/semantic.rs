use hring::SemanticError;

#[test]
fn buffer_limit_maps_to_431() {
    let response = SemanticError::BufferLimitReachedWhileParsing.as_http_response();
    assert_eq!(
        response,
        "HTTP/1.1 431 Request Header Fields Too Large\r\n\r\n".as_bytes()
    );
}

#[test]
fn response_is_a_status_line_and_a_blank_line() {
    let response = SemanticError::BufferLimitReachedWhileParsing.as_http_response();
    assert_eq!(response.len(), 48);
    assert!(response.starts_with("HTTP/1.1 431 ".as_bytes()));
    assert!(response.ends_with("\r\n\r\n".as_bytes()));
    let line_breaks = response.iter().filter(|&&b| b == 0x0a).count();
    assert_eq!(line_breaks, 2);
    let status_line = &response[..response.len() - 4];
    assert!(!status_line.contains(&0x0d));
    assert!(!status_line.contains(&0x0a));
}

#[test]
fn buffer_limit_describes_itself() {
    assert_eq!(
        SemanticError::BufferLimitReachedWhileParsing.message(),
        "buffering limit reached while parsing"
    );
}

#[test]
fn semantic_errors_compare_by_kind() {
    let a = SemanticError::BufferLimitReachedWhileParsing;
    let b = a;
    assert_eq!(a, b);
    assert_eq!(a.as_http_response(), b.as_http_response());
}
