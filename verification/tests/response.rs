use mob::response::{Response, StatusMessage};

#[test]
fn a_new_response_is_200_ok_and_empty() {
    let response = Response::new();
    assert!(matches!(response.status(), StatusMessage::Success));
    assert_eq!(response.headers().len(), 0);
    assert_eq!(response.content(), &[] as &[u8]);
}

#[test]
fn the_builders_chain() {
    let mut response = Response::new();
    response
        .status_code(404, "Not Found")
        .header("Content-Type", "text/plain")
        .header("X-Test", "1")
        .body("gone");
    match response.status() {
        StatusMessage::Custom(code, message) => {
            assert_eq!(*code, 404);
            assert_eq!(message, "Not Found");
        }
        StatusMessage::Success => panic!("the status was set"),
    }
    assert_eq!(
        response.headers(),
        &[
            (String::from("Content-Type"), String::from("text/plain")),
            (String::from("X-Test"), String::from("1")),
        ]
    );
    assert_eq!(response.content(), b"gone");
    response.body_bytes(&[1, 2, 3]);
    assert_eq!(response.content(), &[1, 2, 3]);
}
