//! Raw packets between the framing state machine and protocol's transform
//! pipeline (compression and the like), in both directions.
use vstd::prelude::*;
use crate::settings::Settings;
use crate::transport::{FrameError, Simple, frame, frame_packet};

verus! {

#[verifier::external_type_specification]
#[verifier::external_body]
pub struct ExPipeline(protocol::wire::middleware::pipeline::Default);

#[verifier::external_type_specification]
#[verifier::external_body]
pub struct ExProtocolError(protocol::Error);

/// What protocol's `Pipeline::decode_data` makes of `data` on pipeline `p`:
/// `None` where it fails.
pub uninterp spec fn pipeline_decoded(
    p: protocol::wire::middleware::pipeline::Default,
    data: Seq<u8>,
) -> Option<Seq<u8>>;

/// What protocol's `Pipeline::encode_data` makes of `data` on pipeline `p`:
/// `None` where it fails.
pub uninterp spec fn pipeline_encoded(
    p: protocol::wire::middleware::pipeline::Default,
    data: Seq<u8>,
) -> Option<Seq<u8>>;

/// Relies on protocol's `Pipeline::decode_data`: undoes the pipeline's
/// transforms. Its result depends on the pipeline's settings and the data
/// alone (no compression returns the data as is; zlib output is fixed by its
/// input), and it leaves the pipeline unchanged.
#[verifier::external_body]
fn pipeline_decode(
    middleware: &mut protocol::wire::middleware::pipeline::Default,
    data: Vec<u8>,
) -> (r: Result<Vec<u8>, protocol::Error>)
    ensures
        *final(middleware) == *old(middleware),
        r is Ok <==> pipeline_decoded(*old(middleware), data@) is Some,
        r is Ok ==> r->Ok_0@ == pipeline_decoded(*old(middleware), data@)->Some_0,
{
    protocol::wire::middleware::Pipeline::decode_data(middleware, data)
}

/// Relies on protocol's `Pipeline::encode_data`: applies the pipeline's
/// transforms. Its result depends on the pipeline's settings and the data
/// alone, and it leaves the pipeline unchanged.
#[verifier::external_body]
fn pipeline_encode(
    middleware: &mut protocol::wire::middleware::pipeline::Default,
    data: Vec<u8>,
) -> (r: Result<Vec<u8>, protocol::Error>)
    ensures
        *final(middleware) == *old(middleware),
        r is Ok <==> pipeline_encoded(*old(middleware), data@) is Some,
        r is Ok ==> r->Ok_0@ == pipeline_encoded(*old(middleware), data@)->Some_0,
{
    protocol::wire::middleware::Pipeline::encode_data(middleware, data)
}

/// Why an outgoing packet could not be turned into a frame.
pub enum SendError {
    /// The transform pipeline refused the packet.
    Pipeline(protocol::Error),
    /// The transformed packet could not be framed.
    Frame(FrameError),
}

/// Takes the oldest completed packet, if any, and undoes the pipeline's
/// transforms on it.
///
/// `Ok(None)` comes exactly when no packet was queued; otherwise the result is
/// the pipeline's decoding of the oldest packet, or its error. A packet that the
/// pipeline refuses is still taken off the queue, so the next one can be read.
pub fn receive_decoded(
    transport: &mut Simple,
    middleware: &mut protocol::wire::middleware::pipeline::Default,
) -> (r: Result<Option<Vec<u8>>, protocol::Error>)
    requires
        old(transport).wf(),
    ensures
        final(transport).wf(),
        final(transport).max_size() == old(transport).max_size(),
        final(transport)@.phase == old(transport)@.phase,
        old(transport)@.packets.len() == 0 ==> r is Ok && r->Ok_0 is None
            && final(transport)@.packets == old(transport)@.packets,
        *final(middleware) == *old(middleware),
        old(transport)@.packets.len() > 0 ==> {
            let d = pipeline_decoded(*old(middleware), old(transport)@.packets[0]);
            &&& final(transport)@.packets == old(transport)@.packets.drop_first()
            &&& (r is Ok <==> d is Some)
            &&& r is Ok ==> r->Ok_0 is Some && r->Ok_0->Some_0@ == d->Some_0
        },
{
    match transport.receive_raw_packet() {
        None => Ok(None),
        Some(raw) => match pipeline_decode(middleware, raw) {
            Ok(data) => Ok(Some(data)),
            Err(e) => Err(e),
        },
    }
}

/// Applies the pipeline's transforms to `raw` and frames the result.
///
/// Fails with `SendError::Pipeline` where the pipeline fails, and with
/// `SendError::Frame` where its output is too long for a size prefix; otherwise
/// the frame carries, behind its size prefix, exactly what the pipeline produced.
pub fn encode_framed(
    middleware: &mut protocol::wire::middleware::pipeline::Default,
    raw: Vec<u8>,
    settings: &Settings,
) -> (r: Result<Vec<u8>, SendError>)
    ensures
        *final(middleware) == *old(middleware),
        match pipeline_encoded(*old(middleware), raw@) {
            None => r matches Err(SendError::Pipeline(_)),
            Some(e) => if e.len() <= u32::MAX {
                r is Ok && r->Ok_0@ == frame(e, settings.byte_order)
            } else {
                r matches Err(SendError::Frame(FrameError::PayloadTooLong { .. }))
            },
        },
{
    match pipeline_encode(middleware, raw) {
        Err(e) => Err(SendError::Pipeline(e)),
        Ok(data) => match frame_packet(data.as_slice(), settings) {
            Ok(f) => Ok(f),
            Err(e) => Err(SendError::Frame(e)),
        },
    }
}

} // verus!
