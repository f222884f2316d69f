//! The transport that both ends of the protocol talk through: it carries
//! frames, each an address and a payload, one at a time.

use crate::status::BusError;
use vstd::prelude::*;

verus! {

/// One call made on a bus, with what the bus answered.
pub enum BusEvent {
    /// A frame was handed to the bus to be sent.
    Sent { id: u32, data: Seq<u8>, outcome: Result<(), BusError> },
    /// The bus was asked for the next frame.
    Received { reply: Result<(u32, Seq<u8>), BusError> },
}

/// What a received frame holds.
pub open spec fn frame_view(frame: Result<(u32, Vec<u8>), BusError>) -> Result<
    (u32, Seq<u8>),
    BusError,
> {
    match frame {
        Ok((id, data)) => Ok((id, data@)),
        Err(e) => Err(e),
    }
}

/// A byte-oriented, half-duplex transport.
///
/// The contract of the two methods says nothing of what a bus does with a
/// frame or when it fails. It only fixes what `traffic` means: the record of
/// the calls made so far, which each call extends by itself.
pub trait Bus {
    /// The calls made on this bus so far, oldest first.
    ///
    /// A bus that is to be verified says here what its record is. The body
    /// below leaves it open, so that a bus written without the verifier
    /// need not name it.
    open spec fn traffic(&self) -> Seq<BusEvent> {
        arbitrary()
    }

    /// Sends one frame.
    fn send_message(&mut self, id: u32, data: &Vec<u8>) -> (r: Result<(), BusError>)
        ensures
            final(self).traffic() == old(self).traffic().push(
                BusEvent::Sent { id, data: data@, outcome: r },
            ),
    ;

    /// Waits for one frame and returns it.
    fn receive_message(&mut self) -> (r: Result<(u32, Vec<u8>), BusError>)
        ensures
            final(self).traffic() == old(self).traffic().push(
                BusEvent::Received { reply: frame_view(r) },
            ),
    ;
}

} // verus!
