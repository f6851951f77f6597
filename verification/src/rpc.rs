//! The client-side decision logic for JSON-RPC exchanges.
//!
//! The transport sends a request with a numeric id and hands back
//! whatever arrives; the logic here decides, exactly, whether the reply
//! answers the request, and whether the connection should be closed.
//! Payload values stay opaque: the library never inspects them.

use vstd::prelude::*;
use serde_json::Value;

verus! {

/// A JSON payload, carried through without being read.
#[verifier::external_type_specification]
#[verifier::external_body]
pub struct ExValue(Value);

/// A reply that claims to answer a request.
pub struct JsonResponse {
    pub id: Option<u64>,
    pub result: Value,
}

/// An error reply from the server.
pub struct JsonServerError {
    pub code: i64,
    pub message: String,
}

/// What a transport can hand back for one pending request.
pub enum JsonResult {
    Resp(JsonResponse),
    ErrorReply(JsonServerError),
    Notif,
}

/// Why a reply was refused.
#[derive(Clone, Copy, Debug, PartialEq, Eq, Structural)]
pub enum ReplyError {
    /// The response carries no numeric id.
    InvalidId,
    /// The response answers a different request.
    MismatchedId,
    /// The server reported an error.
    ServerError,
    /// A notification arrived where a response was awaited.
    UnexpectedReply,
}

/// Decides whether `reply` answers the request with id `req_id`: the
/// result is accepted exactly when the reply is a response whose id
/// matches.
pub fn request_outcome(req_id: u64, reply: JsonResult) -> (r: Result<Value, ReplyError>)
    ensures
        match reply {
            JsonResult::Resp(resp) => {
                &&& (resp.id matches Some(id) && id == req_id) ==> (r matches Ok(v) && v
                    == resp.result)
                &&& resp.id is None ==> r == Result::<Value, ReplyError>::Err(
                    ReplyError::InvalidId,
                )
                &&& (resp.id matches Some(id) && id != req_id) ==> r == Result::<
                    Value,
                    ReplyError,
                >::Err(ReplyError::MismatchedId)
            },
            JsonResult::ErrorReply(_) => r == Result::<Value, ReplyError>::Err(
                ReplyError::ServerError,
            ),
            JsonResult::Notif => r == Result::<Value, ReplyError>::Err(
                ReplyError::UnexpectedReply,
            ),
        },
{
    match reply {
        JsonResult::Resp(resp) => {
            match resp.id {
                None => Err(ReplyError::InvalidId),
                Some(id) => {
                    if id != req_id {
                        Err(ReplyError::MismatchedId)
                    } else {
                        Ok(resp.result)
                    }
                },
            }
        },
        JsonResult::ErrorReply(_) => Err(ReplyError::ServerError),
        JsonResult::Notif => Err(ReplyError::UnexpectedReply),
    }
}

/// Whether a refused reply ends the connection: everything but a stray
/// notification does.
pub fn close_connection(e: &ReplyError) -> (r: bool)
    ensures
        r == !(*e is UnexpectedReply),
{
    match e {
        ReplyError::UnexpectedReply => false,
        _ => true,
    }
}

} // verus!
