//! A bus that needs no wire: it keeps the last frame sent and a frame to
//! answer with in two buffers of its own.

use crate::bus::{frame_view, Bus, BusEvent};
use crate::status::BusError;
use vstd::prelude::*;

verus! {

/// The size of each of the two frame buffers.
pub const BUFFER_SIZE: usize = 32;

/// The number of bytes at the start of a buffer that hold the address, the
/// least significant byte first.
pub const BYTES_IN_U32: usize = 4;

/// The largest payload that fits in a buffer behind the address.
pub const PAYLOAD_CAPACITY: usize = BUFFER_SIZE - BYTES_IN_U32;

/// The smallest address that can be sent under.
pub const MIN_ID: u32 = 0;

/// The largest address that can be sent under.
pub const MAX_ID: u32 = 128;

/// The number that four bytes write, the least significant byte first.
pub open spec fn le32(b0: u8, b1: u8, b2: u8, b3: u8) -> int {
    b0 + 256 * (b1 + 256 * (b2 + 256 * b3))
}

/// The four bytes that write an address, the least significant byte first.
pub open spec fn id_bytes(id: u32) -> Seq<u8> {
    seq![
        (id % 0x100) as u8,
        (id / 0x100 % 0x100) as u8,
        (id / 0x1_0000 % 0x100) as u8,
        (id / 0x100_0000) as u8,
    ]
}

/// The address at the start of a frame buffer.
pub open spec fn frame_id(buffer: Seq<u8>) -> u32
    recommends
        buffer.len() >= BYTES_IN_U32,
{
    le32(buffer[0], buffer[1], buffer[2], buffer[3]) as u32
}

/// The first `size` bytes behind the address in a frame buffer.
pub open spec fn frame_data(buffer: Seq<u8>, size: nat) -> Seq<u8>
    recommends
        BYTES_IN_U32 + size <= buffer.len(),
{
    buffer.subrange(BYTES_IN_U32 as int, BYTES_IN_U32 + size)
}

/// What a `FakeBus` holds.
pub struct FakeBusView {
    pub tx_id: u32,
    pub rx_id: u32,
    /// The frame sent last: address, then payload.
    pub msg_buffer: Seq<u8>,
    /// The frame to answer with: address, then payload.
    pub rmsg_buffer: Seq<u8>,
    /// The length of the payload sent last.
    pub msg_size: nat,
    /// The length of the payload to answer with.
    pub rmsg_size: nat,
    /// Whether a receive yields the frame to answer with, and not the frame
    /// sent last.
    pub auto_response: bool,
}

impl FakeBusView {
    /// Both buffers have their size and both payloads fit behind the address.
    pub open spec fn wf(self) -> bool {
        &&& self.msg_buffer.len() == BUFFER_SIZE
        &&& self.rmsg_buffer.len() == BUFFER_SIZE
        &&& self.msg_size <= PAYLOAD_CAPACITY
        &&& self.rmsg_size <= PAYLOAD_CAPACITY
    }

    /// The frame sent last.
    pub open spec fn sent(self) -> (u32, Seq<u8>) {
        (frame_id(self.msg_buffer), frame_data(self.msg_buffer, self.msg_size))
    }

    /// The frame to answer with.
    pub open spec fn response(self) -> (u32, Seq<u8>) {
        (frame_id(self.rmsg_buffer), frame_data(self.rmsg_buffer, self.rmsg_size))
    }

    /// The frame that the next receive yields.
    pub open spec fn next_frame(self) -> (u32, Seq<u8>) {
        if self.auto_response {
            self.response()
        } else {
            self.sent()
        }
    }

    /// True when a frame can be sent: the payload fits in the buffer and the
    /// address is in range.
    pub open spec fn accepts(id: u32, data: Seq<u8>) -> bool {
        data.len() <= PAYLOAD_CAPACITY && MIN_ID <= id <= MAX_ID
    }

    /// The bus after a frame was handed to it. A payload that does not fit
    /// changes nothing. With an address out of range, only the length of the
    /// payload is taken down. Otherwise the frame is written over the start
    /// of the buffer, and the bytes behind it stay.
    pub open spec fn after_send(self, id: u32, data: Seq<u8>) -> FakeBusView {
        if data.len() > PAYLOAD_CAPACITY {
            self
        } else if !(MIN_ID <= id <= MAX_ID) {
            FakeBusView { msg_size: data.len(), ..self }
        } else {
            FakeBusView {
                msg_size: data.len(),
                msg_buffer: id_bytes(id) + data + self.msg_buffer.skip(
                    BYTES_IN_U32 + data.len(),
                ),
                ..self
            }
        }
    }

    /// The bus after a payload to answer with was set: it is written behind
    /// the address, which stays, as do the bytes behind the payload.
    pub open spec fn after_set_rmsg(self, d: Seq<u8>) -> FakeBusView {
        FakeBusView {
            rmsg_size: d.len(),
            rmsg_buffer: self.rmsg_buffer.take(BYTES_IN_U32 as int) + d + self.rmsg_buffer.skip(
                BYTES_IN_U32 + d.len(),
            ),
            ..self
        }
    }

    /// A frame that was sent is the frame that `sent` shows, and the bus is
    /// still well formed.
    pub proof fn lemma_sent_frame(self, id: u32, data: Seq<u8>)
        requires
            self.wf(),
            FakeBusView::accepts(id, data),
        ensures
            self.after_send(id, data).wf(),
            self.after_send(id, data).sent() == (id, data),
    {
        let after = self.after_send(id, data);
        assert(frame_data(after.msg_buffer, after.msg_size) =~= data);
    }

    /// A payload that was set to answer with is the payload that `response`
    /// shows, under the address that was there before.
    pub proof fn lemma_response_frame(self, d: Seq<u8>)
        requires
            self.wf(),
            d.len() <= PAYLOAD_CAPACITY,
        ensures
            self.after_set_rmsg(d).wf(),
            self.after_set_rmsg(d).response() == (self.response().0, d),
    {
        let after = self.after_set_rmsg(d);
        assert(frame_data(after.rmsg_buffer, after.rmsg_size) =~= d);
    }
}

/// A bus for tests. What is sent on it goes into a buffer that `spy_id` and
/// `spy_data` show. A receive yields that same frame again or, with
/// `auto_response` set, the frame whose payload `set_rmsg_data` has put in.
#[allow(dead_code)]
pub struct FakeBus {
    tx_id: u32,
    rx_id: u32,
    msg_buffer: [u8; 32],
    rmsg_buffer: [u8; 32],
    msg_size: usize,
    rmsg_size: usize,
    auto_response: bool,
    log: Ghost<Seq<BusEvent>>,
}

impl View for FakeBus {
    type V = FakeBusView;

    closed spec fn view(&self) -> FakeBusView {
        FakeBusView {
            tx_id: self.tx_id,
            rx_id: self.rx_id,
            msg_buffer: self.msg_buffer@,
            rmsg_buffer: self.rmsg_buffer@,
            msg_size: self.msg_size as nat,
            rmsg_size: self.rmsg_size as nat,
            auto_response: self.auto_response,
        }
    }
}

/// Reads the address at the start of a frame buffer.
fn read_id(buffer: &[u8; 32]) -> (id: u32)
    ensures
        id == frame_id(buffer@),
{
    buffer[0] as u32 + 256 * (buffer[1] as u32 + 256 * (buffer[2] as u32 + 256 * (buffer[3]
        as u32)))
}

/// Copies the first `size` bytes behind the address out of a frame buffer.
fn read_data(buffer: &[u8; 32], size: usize) -> (data: Vec<u8>)
    requires
        size <= PAYLOAD_CAPACITY,
    ensures
        data@ == frame_data(buffer@, size as nat),
{
    let mut data: Vec<u8> = Vec::new();
    let start: usize = BYTES_IN_U32;
    let end: usize = size + BYTES_IN_U32;
    let mut i: usize = start;
    while i < end
        invariant
            start == BYTES_IN_U32,
            start <= i <= end <= BUFFER_SIZE,
            data@ == buffer@.subrange(start as int, i as int),
        decreases end - i,
    {
        data.push(buffer[i]);
        assert(buffer@.subrange(start as int, i + 1) =~= buffer@.subrange(start as int, i as int).push(
            buffer@[i as int],
        ));
        i += 1;
    }
    data
}

impl FakeBus {
    #[verifier::type_invariant]
    spec fn inv(&self) -> bool {
        self.msg_size <= PAYLOAD_CAPACITY && self.rmsg_size <= PAYLOAD_CAPACITY
    }

    /// A bus with empty buffers that sends under address 0, is sent to under
    /// address 1 and answers with what was sent last.
    pub fn new() -> (fb: FakeBus)
        ensures
            fb@ == (FakeBusView {
                tx_id: 0,
                rx_id: 1,
                msg_buffer: Seq::new(BUFFER_SIZE as nat, |i: int| 0u8),
                rmsg_buffer: Seq::new(BUFFER_SIZE as nat, |i: int| 0u8),
                msg_size: 0,
                rmsg_size: 0,
                auto_response: false,
            }),
            fb@.wf(),
            fb.traffic() == Seq::<BusEvent>::empty(),
    {
        let fb = FakeBus {
            tx_id: 0,
            rx_id: 1,
            msg_buffer: [0;32],
            rmsg_buffer: [0;32],
            msg_size: 0,
            rmsg_size: 0,
            auto_response: false,
            log: Ghost(Seq::empty()),
        };
        assert(fb.msg_buffer@ =~= Seq::new(BUFFER_SIZE as nat, |i: int| 0u8));
        assert(fb.rmsg_buffer@ =~= Seq::new(BUFFER_SIZE as nat, |i: int| 0u8));
        fb
    }

    /// The payload of the frame sent last.
    pub fn spy_data(&self) -> (data: Vec<u8>)
        ensures
            self@.wf(),
            data@ == self@.sent().1,
    {
        proof {
            use_type_invariant(self);
        }
        read_data(&self.msg_buffer, self.msg_size)
    }

    /// The address of the frame sent last.
    pub fn spy_id(&self) -> (id: u32)
        ensures
            self@.wf(),
            id == self@.sent().0,
    {
        proof {
            use_type_invariant(self);
        }
        read_id(&self.msg_buffer)
    }

    /// Sets the payload to answer with. A payload that does not fit behind
    /// the address is refused, and nothing changes.
    pub fn set_rmsg_data(&mut self, d: &Vec<u8>) -> (r: Result<(), &'static str>)
        ensures
            final(self)@.wf(),
            final(self).traffic() == old(self).traffic(),
            d.len() <= PAYLOAD_CAPACITY ==> r is Ok && final(self)@ == old(self)@.after_set_rmsg(
                d@,
            ),
            d.len() > PAYLOAD_CAPACITY ==> r is Err && r->Err_0@ == "Passed vector too big!"@
                && final(self)@ == old(self)@,
            r is Ok ==> final(self)@.response() == (old(self)@.response().0, d@),
    {
        proof {
            use_type_invariant(&*self);
            if d.len() <= PAYLOAD_CAPACITY {
                old(self)@.lemma_response_frame(d@);
            }
        }
        if d.len() > PAYLOAD_CAPACITY {
            return Err("Passed vector too big!");
        }
        let mut i: usize = 0;
        assert(self.rmsg_buffer@ =~= self.rmsg_buffer@.take(BYTES_IN_U32 as int) + d@.take(0)
            + self.rmsg_buffer@.skip(BYTES_IN_U32 as int));
        while i < d.len()
            invariant
                i <= d.len() <= PAYLOAD_CAPACITY,
                self.msg_size <= PAYLOAD_CAPACITY,
                self.rmsg_size <= PAYLOAD_CAPACITY,
                self.log == old(self).log,
                self@ == (FakeBusView {
                    rmsg_buffer: old(self)@.rmsg_buffer.take(BYTES_IN_U32 as int) + d@.take(i as int)
                        + old(self)@.rmsg_buffer.skip(BYTES_IN_U32 + i),
                    ..old(self)@
                }),
            decreases d.len() - i,
        {
            let ghost before = self.rmsg_buffer@;
            self.rmsg_buffer[i + BYTES_IN_U32] = d[i];
            assert(self.rmsg_buffer@ =~= old(self)@.rmsg_buffer.take(BYTES_IN_U32 as int) + d@.take(
                i + 1,
            ) + old(self)@.rmsg_buffer.skip(BYTES_IN_U32 + i + 1));
            i += 1;
        }
        self.rmsg_size = d.len();
        assert(d@.take(d.len() as int) =~= d@);
        Ok(())
    }

    /// Yields the frame sent last.
    pub fn regular_receive(&mut self) -> (r: Result<(u32, Vec<u8>), BusError>)
        ensures
            *final(self) == *old(self),
            final(self)@.wf(),
            frame_view(r) == Ok::<(u32, Seq<u8>), BusError>(old(self)@.sent()),
    {
        proof {
            use_type_invariant(&*self);
        }
        let id = read_id(&self.msg_buffer);
        let data = read_data(&self.msg_buffer, self.msg_size);
        Ok((id, data))
    }

    /// Yields the frame to answer with.
    pub fn auto_receive(&mut self) -> (r: Result<(u32, Vec<u8>), BusError>)
        ensures
            *final(self) == *old(self),
            final(self)@.wf(),
            frame_view(r) == Ok::<(u32, Seq<u8>), BusError>(old(self)@.response()),
    {
        proof {
            use_type_invariant(&*self);
        }
        let id = read_id(&self.rmsg_buffer);
        let data = read_data(&self.rmsg_buffer, self.rmsg_size);
        Ok((id, data))
    }

    /// Chooses what a receive yields: the frame to answer with where
    /// `auto_response` is true, the frame sent last where it is false.
    pub fn set_auto_response(&mut self, auto_response: bool)
        ensures
            final(self)@.wf(),
            final(self)@ == (FakeBusView { auto_response, ..old(self)@ }),
            final(self).traffic() == old(self).traffic(),
    {
        proof {
            use_type_invariant(&*self);
        }
        self.auto_response = auto_response;
    }

    /// Whether a receive yields the frame to answer with.
    pub fn auto_response(&self) -> (auto_response: bool)
        ensures
            auto_response == self@.auto_response,
    {
        self.auto_response
    }

    /// The address that this bus sends under.
    pub fn tx_id(&self) -> (id: u32)
        ensures
            id == self@.tx_id,
    {
        self.tx_id
    }

    /// The address that this bus is sent to under.
    pub fn rx_id(&self) -> (id: u32)
        ensures
            id == self@.rx_id,
    {
        self.rx_id
    }

    /// The buffer that holds the frame to answer with.
    pub fn rmsg_buffer(&self) -> (buffer: [u8; 32])
        ensures
            buffer@ == self@.rmsg_buffer,
    {
        self.rmsg_buffer
    }

    /// The length of the payload to answer with.
    pub fn rmsg_size(&self) -> (size: usize)
        ensures
            size == self@.rmsg_size,
            size <= PAYLOAD_CAPACITY,
    {
        proof {
            use_type_invariant(self);
        }
        self.rmsg_size
    }
}

impl Bus for FakeBus {
    closed spec fn traffic(&self) -> Seq<BusEvent> {
        self.log@
    }

    /// Takes a frame. A payload that does not fit behind the address and an
    /// address out of range are refused with `BadParameter`.
    fn send_message(&mut self, id: u32, data: &Vec<u8>) -> (r: Result<(), BusError>)
        ensures
            final(self)@.wf(),
            final(self)@ == old(self)@.after_send(id, data@),
            r == (if FakeBusView::accepts(id, data@) {
                Ok::<(), BusError>(())
            } else {
                Err::<(), BusError>(BusError::BadParameter)
            }),
            r is Ok ==> final(self)@.sent() == (id, data@),
    {
        proof {
            use_type_invariant(&*self);
            if FakeBusView::accepts(id, data@) {
                old(self)@.lemma_sent_frame(id, data@);
            }
        }
        if data.len() > PAYLOAD_CAPACITY {
            self.log = Ghost(
                self.log@.push(
                    BusEvent::Sent { id, data: data@, outcome: Err(BusError::BadParameter) },
                ),
            );
            return Err(BusError::BadParameter);
        }
        self.msg_size = data.len();
        if id > MAX_ID || id < MIN_ID {
            self.log = Ghost(
                self.log@.push(
                    BusEvent::Sent { id, data: data@, outcome: Err(BusError::BadParameter) },
                ),
            );
            return Err(BusError::BadParameter);
        }
        self.msg_buffer[0] = (id % 0x100) as u8;
        self.msg_buffer[1] = (id / 0x100 % 0x100) as u8;
        self.msg_buffer[2] = (id / 0x1_0000 % 0x100) as u8;
        self.msg_buffer[3] = (id / 0x100_0000) as u8;
        let mut i: usize = 0;
        assert(self.msg_buffer@ =~= id_bytes(id) + data@.take(0) + old(self)@.msg_buffer.skip(
            BYTES_IN_U32 as int,
        ));
        while i < data.len()
            invariant
                i <= data.len() <= PAYLOAD_CAPACITY,
                self.msg_size == data.len(),
                self.rmsg_size <= PAYLOAD_CAPACITY,
                self.log == old(self).log,
                self@ == (FakeBusView {
                    msg_size: data.len() as nat,
                    msg_buffer: id_bytes(id) + data@.take(i as int) + old(self)@.msg_buffer.skip(
                        BYTES_IN_U32 + i,
                    ),
                    ..old(self)@
                }),
            decreases data.len() - i,
        {
            self.msg_buffer[i + BYTES_IN_U32] = data[i];
            assert(self.msg_buffer@ =~= id_bytes(id) + data@.take(i + 1)
                + old(self)@.msg_buffer.skip(BYTES_IN_U32 + i + 1));
            i += 1;
        }
        assert(data@.take(data.len() as int) =~= data@);
        self.log = Ghost(self.log@.push(BusEvent::Sent { id, data: data@, outcome: Ok(()) }));
        Ok(())
    }

    /// Yields the frame to answer with where `auto_response` is set, and
    /// the frame sent last where it is not. It never fails.
    fn receive_message(&mut self) -> (r: Result<(u32, Vec<u8>), BusError>)
        ensures
            final(self)@.wf(),
            final(self)@ == old(self)@,
            frame_view(r) == Ok::<(u32, Seq<u8>), BusError>(old(self)@.next_frame()),
    {
        proof {
            use_type_invariant(&*self);
        }
        let r = if self.auto_response {
            self.auto_receive()
        } else {
            self.regular_receive()
        };
        self.log = Ghost(self.log@.push(BusEvent::Received { reply: frame_view(r) }));
        r
    }
}

} // verus!
