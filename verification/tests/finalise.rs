use webmachine::context::{WebmachineContext, WebmachineRequest};
use webmachine::decisions::Decision;
use webmachine::finalise::{end_status, needs_body, take_rendered};

#[test]
fn only_a_bodiless_200_response_to_a_get_is_rendered() {
    let mut context = WebmachineContext::default();
    assert!(needs_body(&context));
    context.response.status = 204;
    assert!(!needs_body(&context));
    context.response.status = 200;
    context.response.body = Some(b"x".to_vec());
    assert!(!needs_body(&context));
    let head = WebmachineContext {
        request: WebmachineRequest { method: "HEAD".to_string(), ..WebmachineRequest::default() },
        ..WebmachineContext::default()
    };
    assert!(!needs_body(&head));
}

#[test]
fn rendered_bodies_and_errors_are_taken_into_the_response() {
    let mut context = WebmachineContext::default();
    take_rendered(&mut context.response, Ok(None));
    assert_eq!(context.response.body, None);
    assert_eq!(context.response.status, 200);
    take_rendered(&mut context.response, Ok(Some(b"hello".to_vec())));
    assert_eq!(context.response.body, Some(b"hello".to_vec()));
    assert_eq!(context.response.status, 200);
    take_rendered(&mut context.response, Err(b"failed".to_vec()));
    assert_eq!(context.response.body, Some(b"failed".to_vec()));
    assert_eq!(context.response.status, 500);
}

#[test]
fn requests_end_with_the_status_of_their_end_state() {
    assert_eq!(end_status(Decision::End(404)), Some(404));
    assert_eq!(end_status(Decision::A3Options), Some(204));
    assert_eq!(end_status(Decision::B13Available), None);
}
