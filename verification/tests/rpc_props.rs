use darkfi::curve::{encode_address, parse_address, public_key_of};
use darkfi::tx::validate_transfer_request;
use darkfi::rpc::{close_connection, request_outcome, JsonResponse, JsonResult, ReplyError};
use darkfi::Error;
use serde_json::Value;

#[test]
fn matching_reply_is_accepted() {
    let reply = JsonResult::Resp(JsonResponse { id: Some(7), result: Value::from(99u64) });
    let out = request_outcome(7, reply).expect("matching id");
    assert_eq!(out, Value::from(99u64));
}

#[test]
fn mismatched_or_missing_id_is_refused() {
    let reply = JsonResult::Resp(JsonResponse { id: Some(8), result: Value::from(1u64) });
    assert_eq!(request_outcome(7, reply).unwrap_err(), ReplyError::MismatchedId);
    let reply = JsonResult::Resp(JsonResponse { id: None, result: Value::from(1u64) });
    assert_eq!(request_outcome(7, reply).unwrap_err(), ReplyError::InvalidId);
}

#[test]
fn error_and_notification_replies_are_refused() {
    let reply = JsonResult::ErrorReply(darkfi::rpc::JsonServerError {
        code: -32600,
        message: "invalid request".to_string(),
    });
    let e = request_outcome(7, reply).unwrap_err();
    assert_eq!(e, ReplyError::ServerError);
    assert!(close_connection(&e));
    let e = request_outcome(7, JsonResult::Notif).unwrap_err();
    assert_eq!(e, ReplyError::UnexpectedReply);
    assert!(!close_connection(&e));
}

#[test]
fn address_round_trip() {
    let mut secret = vec![0u8; 32];
    secret[0] = 42;
    let pk = public_key_of(&secret).unwrap();
    let addr = encode_address(&pk);
    let back = parse_address(&addr).expect("canonical address");
    assert_eq!(back, pk);
}

#[test]
fn bad_addresses_are_refused() {
    // '0', 'O', 'I' and 'l' are outside the base-58 alphabet.
    assert_eq!(parse_address("0OIl").unwrap_err(), Error::InvalidAddress);
    // Valid base-58, but not 32 bytes.
    let addr = encode_address(&vec![1u8; 16]);
    assert_eq!(parse_address(&addr).unwrap_err(), Error::InvalidAddress);
    // 32 bytes that are not a canonical point encoding.
    let addr = encode_address(&vec![0xffu8; 32]);
    assert_eq!(parse_address(&addr).unwrap_err(), Error::InvalidAddress);
}

#[test]
fn transfer_request_preconditions() {
    assert_eq!(validate_transfer_request(0, 5).unwrap_err(), Error::InvalidAmount);
    assert_eq!(validate_transfer_request(10, 0).unwrap_err(), Error::NotEnoughValue);
    assert!(validate_transfer_request(10, 5).is_ok());
    // A zero amount is reported as such even with no coins at hand.
    assert_eq!(validate_transfer_request(0, 0).unwrap_err(), Error::InvalidAmount);
}
