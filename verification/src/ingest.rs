use vstd::prelude::*;

use crate::date::{spec_date_bytes, UtcDate};
use crate::form::{extract_fields, spec_extract};
use crate::frame::{encode_frame, spec_frame, FIELD_WIDTH, FRAME_OVERHEAD};
use crate::queue::{queue_frames, TransferQueue};

verus! {

/// The HTTP methods the relay tells apart. Only `Post` ever reaches the
/// encoder; everything else is routed to not-found.
#[derive(Clone, Copy, Debug, PartialEq, Eq, Structural)]
pub enum HttpMethod {
    Get,
    Post,
    Other,
}

pub const STATUS_OK: u16 = 200;

pub const STATUS_BAD_REQUEST: u16 = 400;

pub const STATUS_NOT_FOUND: u16 = 404;

/// A plain HTTP response: a status code and body bytes.
pub struct HttpResponse {
    pub status: u16,
    pub body: Vec<u8>,
}

/// The service root path, `/`.
pub open spec fn root_path() -> Seq<u8> {
    seq![0x2fu8]
}

/// The acknowledgment body, `ok`.
pub open spec fn ok_body() -> Seq<u8> {
    seq![0x6fu8, 0x6bu8]
}

/// The one route that accepts submissions: `POST` to the service root.
pub open spec fn is_ingest_route(method: HttpMethod, path: Seq<u8>) -> bool {
    method == HttpMethod::Post && path == root_path()
}

/// Whether the three identifier fields of an extracted submission fit their
/// 12-byte frame slots.
pub open spec fn fields_fit(t: (Seq<u8>, Seq<u8>, Seq<u8>, Seq<u8>)) -> bool {
    t.0.len() <= FIELD_WIDTH && t.1.len() <= FIELD_WIDTH && t.2.len() <= FIELD_WIDTH
}

/// Whether a submission body yields four fields whose identifiers fit their
/// frame slots: exactly then the ingest route accepts it.
pub open spec fn extract_fits(body: Seq<u8>) -> bool {
    spec_extract(body) matches Some(t) && fields_fit(t)
}

/// The frame an accepted body encodes to: its `app`, `env` and `api` fields
/// in their frame order, the given date's stamp, and its payload.
pub open spec fn expected_frame(body: Seq<u8>, date: UtcDate) -> Seq<u8> {
    let t = spec_extract(body).unwrap();
    spec_frame(t.1, t.2, t.0, spec_date_bytes(date), t.3)
}

/// Routes one request and, on the ingest route, turns its body into a frame.
///
/// `POST /` with a body that parses and whose identifiers fit yields `200`
/// with body `ok` and the encoded frame for the transfer queue. A body that
/// does not parse, or an oversized identifier, yields `400` and no frame.
/// Every other method or path yields `404` and no frame.
pub fn handle_request(method: HttpMethod, path: &Vec<u8>, body: &Vec<u8>, date: &UtcDate) -> (r: (
    HttpResponse,
    Option<Vec<u8>>,
))
    requires
        date.wf(),
        body@.len() + FRAME_OVERHEAD <= u32::MAX,
    ensures
        r.1 is Some <==> is_ingest_route(method, path@) && extract_fits(body@),
        r.1 matches Some(f) ==> f@ == expected_frame(body@, *date),
        !is_ingest_route(method, path@) ==> r.0.status == STATUS_NOT_FOUND && r.0.body@.len() == 0,
        is_ingest_route(method, path@) && !extract_fits(body@) ==> r.0.status
            == STATUS_BAD_REQUEST,
        is_ingest_route(method, path@) && extract_fits(body@) ==> r.0.status == STATUS_OK
            && r.0.body@ == ok_body(),
{
    let is_root = path.len() == 1 && path[0] == 0x2f;
    proof {
        if is_root {
            assert(path@ =~= root_path());
        } else if path@ == root_path() {
            assert(path@.len() == 1 && path@[0] == 0x2f);
        }
    }
    let ingest = match method {
        HttpMethod::Post => is_root,
        _ => false,
    };
    if !ingest {
        return (HttpResponse { status: STATUS_NOT_FOUND, body: Vec::new() }, None);
    }
    match extract_fields(body) {
        Err(_) => (HttpResponse { status: STATUS_BAD_REQUEST, body: Vec::new() }, None),
        Ok(sub) => match encode_frame(&sub.app, &sub.env, &sub.api, &sub.data, date) {
            Ok(f) => {
                let mut ack: Vec<u8> = Vec::new();
                ack.push(0x6f);
                ack.push(0x6b);
                assert(ack@ =~= ok_body());
                (HttpResponse { status: STATUS_OK, body: ack }, Some(f))
            },
            Err(_) => (HttpResponse { status: STATUS_BAD_REQUEST, body: Vec::new() }, None),
        },
    }
}

/// Serves one request end to end: routes it, encodes an accepted body into
/// its frame, hands the frame to the transfer queue, and answers without
/// waiting for delivery.
///
/// Exactly an accepted submission (`POST /`, parsable body, fitting
/// identifiers) appends its frame — and nothing else — to the queue; every
/// other request leaves the queue untouched. The response is as
/// `handle_request` promises.
pub fn ingest_request(
    q: &mut TransferQueue,
    method: HttpMethod,
    path: &Vec<u8>,
    body: &Vec<u8>,
    date: &UtcDate,
) -> (resp: HttpResponse)
    requires
        date.wf(),
        body@.len() + FRAME_OVERHEAD <= u32::MAX,
    ensures
        is_ingest_route(method, path@) && extract_fits(body@) ==> queue_frames(*final(q))
            == queue_frames(*old(q)).push(expected_frame(body@, *date)) && resp.status
            == STATUS_OK && resp.body@ == ok_body(),
        !(is_ingest_route(method, path@) && extract_fits(body@)) ==> queue_frames(*final(q))
            == queue_frames(*old(q)),
        !is_ingest_route(method, path@) ==> resp.status == STATUS_NOT_FOUND && resp.body@.len()
            == 0,
        is_ingest_route(method, path@) && !extract_fits(body@) ==> resp.status
            == STATUS_BAD_REQUEST,
{
    let (resp, frame) = handle_request(method, path, body, date);
    match frame {
        Some(f) => q.enqueue(f),
        None => (),
    }
    resp
}

} // verus!
