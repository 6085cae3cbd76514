//! What a server calls to have one request processed.

use crate::protocol::format::Stream;
use crate::protocol::Protocol;
use crate::Error;
use vstd::prelude::*;

verus! {

/// The processor of one method. It is called with the codec positioned
/// behind the header of a request, and with the sequence id of that
/// request: it reads the arguments, does the work, and writes the answer
/// unless the method is oneway.
pub trait Processor<P: Protocol> {
    /// What one run did: the processor `self` was called on `stream` with
    /// the sequence id `seq`, left the stream as `left`, and returned `r`.
    /// A processor that says nothing here promises nothing.
    open spec fn processed(
        &self,
        stream: Stream,
        seq: i32,
        left: Stream,
        r: Result<(), Error>,
    ) -> bool {
        true
    }

    fn process(&mut self, proto: &mut P, seq: i32) -> (r: Result<(), Error>)
        ensures
            old(self).processed(old(proto).stream(), seq, final(proto).stream(), r),
    ;
}

} // verus!
