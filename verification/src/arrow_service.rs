//! Configuration of the Arrow request/response protocol served over QUIC
//! streams, and the commands of the Arrow Flight experiment.

use std::sync::Arc;
use vstd::prelude::*;

verus! {

/// Default maximum payload size for receiving Arrow data (1 GiB).
pub const MAX_RESPONSE_SIZE: usize = 1073741824;

/// Default maximum request size (64 KiB).
pub const MAX_REQUEST_SIZE: usize = 65536;

/// Protocol endpoint that receives a request, hands it to `handler`, and answers
/// with Arrow IPC data. Requests longer than the size limit are refused.
#[derive(Debug, Clone)]
pub struct IrohArrow<H> {
    handler: Arc<H>,
    max_request_size: usize,
}

impl<H> IrohArrow<H> {
    /// The largest request, in bytes, that is read.
    pub closed spec fn request_limit(&self) -> usize {
        self.max_request_size
    }

    /// The request handler.
    pub closed spec fn request_handler(&self) -> H {
        *self.handler
    }

    /// An endpoint for `handler` with the default request limit.
    pub fn new(handler: H) -> (endpoint: Self)
        ensures
            endpoint.request_limit() == MAX_REQUEST_SIZE,
            endpoint.request_handler() == handler,
    {
        IrohArrow { handler: Arc::new(handler), max_request_size: MAX_REQUEST_SIZE }
    }

    /// The same endpoint with the request limit set to `size`.
    pub fn with_max_request_size(self, size: usize) -> (endpoint: Self)
        ensures
            endpoint.request_limit() == size,
            endpoint.request_handler() == self.request_handler(),
    {
        let mut endpoint = self;
        endpoint.max_request_size = size;
        endpoint
    }

    /// The largest request, in bytes, that is read.
    pub fn max_request_size(&self) -> (size: usize)
        ensures
            size == self.request_limit(),
    {
        self.max_request_size
    }

    /// The request handler.
    pub fn handler(&self) -> (handler: &H)
        ensures
            *handler == self.request_handler(),
    {
        &*self.handler
    }
}

/// Flight command that fetches the entry with the given identifier.
#[derive(Clone, Copy, Debug, Default, PartialEq, Eq, Structural)]
pub struct GetCommand {
    pub id: u64,
}

/// Flight command that stores an entry under the given identifier.
#[derive(Clone, Copy, Debug, Default, PartialEq, Eq, Structural)]
pub struct PutCommand {
    pub id: u64,
}

} // verus!
