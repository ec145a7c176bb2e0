//! Removal of identifying information from requests before they enter a
//! circuit, and preparation of responses for delivery to the client.
use vstd::prelude::*;

verus! {

/// Strips identifying information from requests and prepares responses.
pub trait RequestSanitizer {
    /// The request with identifying information removed.
    fn sanitize_request(&self, request: &Vec<u8>) -> Vec<u8>;

    /// The response as it is delivered back to the client.
    fn prepare_response(&self, response: &Vec<u8>) -> Vec<u8>;
}

/// A sanitizer that forwards requests and responses unchanged.
pub struct PassThroughSanitizer;

impl PassThroughSanitizer {
    /// The request, unchanged.
    pub fn pass_request(&self, request: &Vec<u8>) -> (r: Vec<u8>)
        ensures
            r@ == request@,
    {
        let r = request.clone();
        assert(r@ =~= request@);
        r
    }
}

impl RequestSanitizer for PassThroughSanitizer {
    fn sanitize_request(&self, request: &Vec<u8>) -> Vec<u8> {
        self.pass_request(request)
    }

    fn prepare_response(&self, response: &Vec<u8>) -> Vec<u8> {
        self.pass_request(response)
    }
}

} // verus!
