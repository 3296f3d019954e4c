//! Handlers for per-stream external resources: a step may delegate each
//! stream's outside work (a process, a session) to one of these.  The
//! library declares the capability set; users implement it.

use vstd::prelude::*;
use crate::media::StreamId;
use crate::steps::StepOutputs;

verus! {

/// The opaque result of a handler's asynchronous work.
pub trait StreamHandlerFutureResult {

}

/// A handler future tagged with the stream it belongs to.
pub struct StreamHandlerFutureWrapper {
    pub stream_id: StreamId,
    pub future: Box<dyn StreamHandlerFutureResult>,
}

/// What resolving a handler future means for the stream.
pub enum ResolvedFutureStatus {
    Success,
    StreamShouldBeStopped,
}

/// Handles one external resource for a single stream.
pub trait ExternalStreamHandler {
    fn prepare_stream(&mut self, stream_id: &StreamId, stream_name: &String, outputs: &mut StepOutputs);

    fn stop_stream(&mut self);

    fn handle_resolved_future(&mut self, future: Box<dyn StreamHandlerFutureResult>, outputs: &mut StepOutputs) -> ResolvedFutureStatus;
}

/// An owned stream handler.
pub struct StreamHandlerBox {
    pub inner: Box<dyn ExternalStreamHandler>,
}

/// Creates a stream handler for any stream.
pub trait ExternalStreamHandlerGenerator {
    fn generate(&mut self, stream_id: StreamId) -> StreamHandlerBox;
}

} // verus!
