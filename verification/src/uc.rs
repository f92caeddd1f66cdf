//! Requests and responses of the cache protocol carried in frames, and how
//! the server answers them.

use vstd::prelude::*;
use crate::frame::PROTOCOL_VERSION;

verus! {

/// Store `value` under `key` in the cache `cache_name`.
#[derive(Debug, PartialEq, Eq)]
pub struct PutRequest {
    pub cache_name: String,
    pub key: Vec<u8>,
    pub value: Vec<u8>,
}

/// Look up `key` in the cache `cache_name`.
#[derive(Debug, PartialEq, Eq)]
pub struct GetRequest {
    pub cache_name: String,
    pub key: Vec<u8>,
}

/// Evict `key` from the cache `cache_name`.
#[derive(Debug, PartialEq, Eq)]
pub struct EvictRequest {
    pub cache_name: String,
    pub key: Vec<u8>,
}

/// Ask for the statistics of the cache `cache_name`.
#[derive(Debug, PartialEq, Eq)]
pub struct StatsRequest {
    pub cache_name: String,
}

/// Announce that the client leaves.
#[derive(Debug, PartialEq, Eq)]
pub struct DisconnectRequest {}

/// What a request asks for.
#[derive(Debug, PartialEq, Eq)]
pub enum RequestBody {
    Put(PutRequest),
    Get(GetRequest),
    Evict(EvictRequest),
    Stats(StatsRequest),
    Disconnect(DisconnectRequest),
}

/// A request with its identifier.
#[derive(Debug, PartialEq, Eq)]
pub struct Envelope {
    pub request_id: u64,
    pub body: Option<RequestBody>,
}

#[derive(Debug, PartialEq, Eq)]
pub struct PutResponse {
    pub success: bool,
}

#[derive(Debug, PartialEq, Eq)]
pub struct GetResponse {
    pub found: bool,
    pub value: Vec<u8>,
}

#[derive(Debug, PartialEq, Eq)]
pub struct EvictResponse {
    pub success: bool,
}

#[derive(Debug, PartialEq, Eq)]
pub struct StatsResponse {
    pub hits: u64,
    pub misses: u64,
    pub entry_count: u64,
}

#[derive(Debug, PartialEq, Eq)]
pub struct DisconnectResponse {
    pub message: String,
}

/// What a response answers.
#[derive(Debug, PartialEq, Eq)]
pub enum ResponseBody {
    PutResponse(PutResponse),
    GetResponse(GetResponse),
    EvictResponse(EvictResponse),
    StatsResponse(StatsResponse),
    DisconnectResponse(DisconnectResponse),
}

/// A response, carrying the identifier of the request it answers.
#[derive(Debug, PartialEq, Eq)]
pub struct EnvelopeResponse {
    pub request_id: u64,
    pub body: Option<ResponseBody>,
}

/// The response body that the server gives to a request body: puts and
/// evictions succeed, gets find nothing, statistics are all zero, and a
/// disconnect gets no body.
pub open spec fn answers(req: RequestBody, resp: Option<ResponseBody>) -> bool {
    match req {
        RequestBody::Put(_) => resp matches Some(ResponseBody::PutResponse(p)) && p.success,
        RequestBody::Get(_) => resp matches Some(ResponseBody::GetResponse(g)) && !g.found
            && g.value@.len() == 0,
        RequestBody::Evict(_) => resp matches Some(ResponseBody::EvictResponse(e)) && e.success,
        RequestBody::Stats(_) => resp matches Some(ResponseBody::StatsResponse(s)) && s.hits == 0
            && s.misses == 0 && s.entry_count == 0,
        RequestBody::Disconnect(_) => resp is None,
    }
}

/// Answers one request. A request without a body is not accepted.
pub fn process_request(req: Envelope) -> (resp: EnvelopeResponse)
    requires
        req.body is Some,
    ensures
        resp.request_id == req.request_id,
        answers(req.body->0, resp.body),
{
    let mut resp = EnvelopeResponse { request_id: req.request_id, body: None };
    match req.body {
        Some(RequestBody::Put(_)) => {
            resp.body = Some(ResponseBody::PutResponse(PutResponse { success: true }));
        },
        Some(RequestBody::Get(_)) => {
            resp.body = Some(
                ResponseBody::GetResponse(GetResponse { found: false, value: Vec::new() }),
            );
        },
        Some(RequestBody::Evict(_)) => {
            resp.body = Some(ResponseBody::EvictResponse(EvictResponse { success: true }));
        },
        Some(RequestBody::Stats(_)) => {
            resp.body = Some(
                ResponseBody::StatsResponse(StatsResponse { hits: 0, misses: 0, entry_count: 0 }),
            );
        },
        _ => {},
    }
    resp
}

/// Why a frame is refused.
#[derive(Debug, PartialEq, Eq)]
pub enum FrameError {
    /// The header carries a version other than `PROTOCOL_VERSION`.
    UnsupportedVersion,
}

/// The payload length of a received frame, from its header's length and
/// version: the length less the 4 bytes of version, type and flags. A
/// frame of another version is refused.
pub fn payload_len(frame_len: u32, version: u8) -> (r: Result<u32, FrameError>)
    requires
        version == PROTOCOL_VERSION ==> frame_len >= 4,
    ensures
        version != PROTOCOL_VERSION ==> r is Err,
        version == PROTOCOL_VERSION ==> r == Ok::<u32, FrameError>((frame_len - 4) as u32),
{
    if version != PROTOCOL_VERSION {
        return Err(FrameError::UnsupportedVersion);
    }
    Ok(frame_len - 4)
}

} // verus!
