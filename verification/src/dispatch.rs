//! Request dispatcher: routes a decoded request to the value store or the
//! outcome ledger and renders the response payload.
//!
//! Responses are position-encoded: a loaded value is prefixed with a found
//! marker so that a failure marker can never be mistaken for data, and every
//! other outcome is a short fixed marker byte. The dispatcher keeps no state
//! of its own; each call is fully self-contained.

use vstd::prelude::*;
use crate::codec::LoadRequest;
use crate::codec::LogFailRequest;
use crate::codec::LogSuccessRequest;
use crate::codec::LogValueRequest;
use crate::codec::Parsed;
use crate::codec::RequestMessage;
use crate::codec::RequestType;
use crate::codec::SpecMessage;
use crate::codec::SpecRequest;
use crate::codec::decode_request;
use crate::codec::parse_request;
use crate::ledger::Ledger;
use crate::ledger::SpecFailInfo;
use crate::store::StoreError;
use crate::store::ValueStore;

verus! {

/// Response to a buffer that failed to decode.
pub const BAD_REQUEST_MARKER: u8 = 65;

/// Response to a health check.
pub const STATUS_MARKER: u8 = 67;

/// First byte of a successful load response, ahead of the loaded bytes.
pub const LOAD_FOUND_PREFIX: u8 = 1;

/// Whole response to a load whose key has no stored value.
pub const LOAD_MISSING_MARKER: u8 = 0;

/// Response to a value successfully stored.
pub const STORED_MARKER: u8 = 69;

/// Response to a value that could not be stored.
pub const STORE_FAILED_MARKER: u8 = 90;

/// Response acknowledging a reported success.
pub const SUCCESS_ACK_MARKER: u8 = 70;

/// How one decoded request must change the store and the ledger, and what
/// it must answer.
pub open spec fn dispatched(
    m: SpecMessage,
    store0: Map<Seq<Seq<char>>, Seq<u8>>,
    ledger0: Seq<SpecFailInfo>,
    store1: Map<Seq<Seq<char>>, Seq<u8>>,
    ledger1: Seq<SpecFailInfo>,
    r: Seq<u8>,
) -> bool {
    match m.request {
        SpecRequest::Status => {
            &&& store1 == store0
            &&& ledger1 == ledger0
            &&& r == seq![STATUS_MARKER]
        },
        SpecRequest::Load { key } => {
            &&& store1 == store0
            &&& ledger1 == ledger0
            &&& (store0.contains_key(key) ==> r == seq![LOAD_FOUND_PREFIX] + store0[key])
            &&& (!store0.contains_key(key) ==> r == seq![LOAD_MISSING_MARKER])
        },
        SpecRequest::LogValue { key, value } => {
            &&& store1 == store0.insert(key, value)
            &&& ledger1 == ledger0
            &&& r == seq![STORED_MARKER]
        },
        SpecRequest::LogSuccess { key: _ } => {
            &&& store1 == store0
            &&& ledger1 == ledger0
            &&& r == seq![SUCCESS_ACK_MARKER]
        },
        SpecRequest::LogFail { key, message } => {
            &&& store1 == store0
            &&& ledger1 == ledger0.push(SpecFailInfo { key, message })
            &&& r == Seq::<u8>::empty()
        },
    }
}

/// The fixed response to a health check.
pub fn answer_status_request() -> (r: Vec<u8>)
    ensures
        r@ == seq![STATUS_MARKER],
{
    let mut r: Vec<u8> = Vec::new();
    r.push(STATUS_MARKER);
    proof {
        assert(r@ =~= seq![STATUS_MARKER]);
    }
    r
}

/// Renders the outcome of a load: the found marker ahead of the bytes, or
/// the missing marker alone. The two can never collide, whatever the bytes.
pub fn load_response(outcome: Option<Vec<u8>>) -> (r: Vec<u8>)
    ensures
        match outcome {
            Some(v) => r@ == seq![LOAD_FOUND_PREFIX] + v@,
            None => r@ == seq![LOAD_MISSING_MARKER],
        },
{
    match outcome {
        Some(mut v) => {
            let mut r: Vec<u8> = Vec::new();
            r.push(LOAD_FOUND_PREFIX);
            let ghost contents = v@;
            r.append(&mut v);
            proof {
                assert(r@ =~= seq![LOAD_FOUND_PREFIX] + contents);
            }
            r
        },
        None => {
            let mut r: Vec<u8> = Vec::new();
            r.push(LOAD_MISSING_MARKER);
            proof {
                assert(r@ =~= seq![LOAD_MISSING_MARKER]);
            }
            r
        },
    }
}

/// Renders the outcome of a store attempt.
pub fn store_response(ok: bool) -> (r: Vec<u8>)
    ensures
        ok ==> r@ == seq![STORED_MARKER],
        !ok ==> r@ == seq![STORE_FAILED_MARKER],
{
    let mut r: Vec<u8> = Vec::new();
    if ok {
        r.push(STORED_MARKER);
        proof {
            assert(r@ =~= seq![STORED_MARKER]);
        }
    } else {
        r.push(STORE_FAILED_MARKER);
        proof {
            assert(r@ =~= seq![STORE_FAILED_MARKER]);
        }
    }
    r
}

/// Answers a load request from the store.
pub fn answer_load_request(request: LoadRequest, store: &ValueStore) -> (r: Vec<u8>)
    ensures
        store@.contains_key(request.key@) ==> r@ == seq![LOAD_FOUND_PREFIX] + store@[request.key@],
        !store@.contains_key(request.key@) ==> r@ == seq![LOAD_MISSING_MARKER],
{
    match store.load(&request.key) {
        Ok(v) => load_response(Some(v)),
        Err(StoreError::NotFound) => load_response(None),
    }
}

/// Stores the carried value under the carried key and acknowledges it.
pub fn answer_log_value_request(request: LogValueRequest, store: &mut ValueStore) -> (r: Vec<u8>)
    ensures
        final(store)@ == old(store)@.insert(request.key@, request.value@),
        r@ == seq![STORED_MARKER],
{
    let LogValueRequest { key, value } = request;
    store.store(&key, value);
    store_response(true)
}

/// Acknowledges a reported success; the ledger keeps its value.
pub fn answer_log_success_request(request: LogSuccessRequest, ledger: &mut Ledger) -> (r: Vec<u8>)
    ensures
        final(ledger)@ == old(ledger)@,
        r@ == seq![SUCCESS_ACK_MARKER],
{
    ledger.record_success(&request.key);
    let mut r: Vec<u8> = Vec::new();
    r.push(SUCCESS_ACK_MARKER);
    proof {
        assert(r@ =~= seq![SUCCESS_ACK_MARKER]);
    }
    r
}

/// Records the reported failure and answers with the empty acknowledgment.
pub fn answer_log_fail_request(request: LogFailRequest, ledger: &mut Ledger) -> (r: Vec<u8>)
    ensures
        final(ledger)@ == old(ledger)@.push(
            SpecFailInfo { key: request.key@, message: request.message@ },
        ),
        r@ == Seq::<u8>::empty(),
{
    let LogFailRequest { key, message } = request;
    ledger.record_failure(key, message);
    Vec::new()
}

/// Routes one decoded request to its delegate and returns the response
/// bytes. Stateless across calls except through the store and the ledger.
pub fn handle_request(request: RequestMessage, store: &mut ValueStore, ledger: &mut Ledger) -> (r:
    Vec<u8>)
    ensures
        dispatched(request@, old(store)@, old(ledger)@, final(store)@, final(ledger)@, r@),
{
    match request.content {
        RequestType::Status(_) => answer_status_request(),
        RequestType::Load(req) => answer_load_request(req, store),
        RequestType::LogValue(req) => answer_log_value_request(req, store),
        RequestType::LogSuccess(req) => answer_log_success_request(req, ledger),
        RequestType::LogFail(req) => answer_log_fail_request(req, ledger),
    }
}

/// Whole buffer in, whole buffer out: decodes a raw request and dispatches
/// it. A buffer that fails to decode never reaches the dispatcher; it is
/// answered with the bad-request marker and changes nothing.
pub fn handle_api(msg: &[u8], store: &mut ValueStore, ledger: &mut Ledger) -> (r: Vec<u8>)
    ensures
        match parse_request(msg@) {
            Parsed::Found { value, .. } => dispatched(
                value,
                old(store)@,
                old(ledger)@,
                final(store)@,
                final(ledger)@,
                r@,
            ),
            _ => {
                &&& final(store)@ == old(store)@
                &&& final(ledger)@ == old(ledger)@
                &&& r@ == seq![BAD_REQUEST_MARKER]
            },
        },
{
    match decode_request(msg) {
        Ok(request) => handle_request(request, store, ledger),
        Err(_) => {
            let mut r: Vec<u8> = Vec::new();
            r.push(BAD_REQUEST_MARKER);
            proof {
                assert(r@ =~= seq![BAD_REQUEST_MARKER]);
            }
            r
        },
    }
}

} // verus!
