use vstd::prelude::*;

use crate::json::{decode_batch, encodes_batch, json_text, parsed_json, Error, Json};
use crate::model::Batch;

verus! {

/// The answer to a liveness probe.
pub fn health_check() -> (r: &'static str)
    ensures
        r@ == "Healthy!"@,
{
    "Healthy!"
}

#[derive(Clone, Copy, Debug, PartialEq, Eq, Structural)]
pub enum Method {
    Get,
    Post,
}

/// Which handler a route reaches.
#[derive(Clone, Copy, Debug, PartialEq, Eq, Structural)]
pub enum Handler {
    /// `health_check`.
    Health,
    /// `create_batch`.
    CreateBatch,
}

/// One route of the ingress service.
#[derive(Debug)]
pub struct Route {
    pub method: Method,
    pub path: String,
    pub handler: Handler,
}

/// The routes the ingress service mounts at `/`: `GET /health` and `POST /batch`.
pub fn rocket() -> (r: Vec<Route>)
    ensures
        r@.len() == 2,
        r@[0].method == Method::Post && r@[0].path@ == "/batch"@ && r@[0].handler == Handler::CreateBatch,
        r@[1].method == Method::Get && r@[1].path@ == "/health"@ && r@[1].handler == Handler::Health,
{
    let mut r: Vec<Route> = Vec::new();
    r.push(Route { method: Method::Post, path: String::from_str("/batch"), handler: Handler::CreateBatch });
    r.push(Route { method: Method::Get, path: String::from_str("/health"), handler: Handler::Health });
    r
}

/// The queue item for a posted batch body: the batch's queue form. Fails,
/// keeping the body, when the body is not a batch.
pub fn create_batch(body: &str) -> (r: Result<String, Error>)
    ensures
        match r {
            Ok(item) => parsed_json(body@) is Some && decode_batch(parsed_json(body@)->Some_0) is Some
                && exists|j: Json|
                    encodes_batch(j, decode_batch(parsed_json(body@)->Some_0)->Some_0) && item@
                        == json_text(j),
            Err(Error::DeserializeFailed { batch }) => batch@ == body@ && (parsed_json(body@) is None
                || decode_batch(parsed_json(body@)->Some_0) is None),
        },
{
    let batch = Batch::from_json(body)?;
    Ok(batch.to_json())
}

/// The response body after trying to queue a batch.
pub fn batch_status(queued: bool) -> (r: &'static str)
    ensures
        r@ == (if queued {
            "{\"status\":\"ok\"}"@
        } else {
            "{\"status\":\"failed\"}"@
        }),
{
    if queued {
        "{\"status\":\"ok\"}"
    } else {
        "{\"status\":\"failed\"}"
    }
}

} // verus!
