use meshwork::arrow_service::{GetCommand, IrohArrow, PutCommand, MAX_REQUEST_SIZE, MAX_RESPONSE_SIZE};

#[derive(Debug, Clone, PartialEq)]
struct EchoHandler;

#[test]
fn with_max_request_size_config() {
    let handler = IrohArrow::new(EchoHandler);
    assert_eq!(handler.max_request_size(), MAX_REQUEST_SIZE);

    let handler = handler.with_max_request_size(1024 * 1024);
    assert_eq!(handler.max_request_size(), 1024 * 1024);
}

#[test]
fn default_limits() {
    assert_eq!(MAX_REQUEST_SIZE, 64 * 1024);
    assert_eq!(MAX_RESPONSE_SIZE, 1024 * 1024 * 1024);
}

#[test]
fn handler_is_kept() {
    let endpoint = IrohArrow::new(EchoHandler).with_max_request_size(10);
    assert_eq!(endpoint.handler(), &EchoHandler);
}

#[test]
fn flight_commands() {
    assert_eq!(GetCommand::default(), GetCommand { id: 0 });
    assert_eq!(PutCommand { id: 7 }.id, 7);
}
