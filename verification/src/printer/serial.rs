//! Framing of the messages exchanged with the motor controller: one length
//! byte, then the payload.
use vstd::prelude::*;

verus! {

/// The bytes written for one message: `[data.len() as u8]` followed by `data`.
pub open spec fn spec_frame(data: Seq<u8>) -> Seq<u8> {
    seq![data.len() as u8] + data
}

/// The bytes `Serial::send` writes for `data`.
pub fn frame(data: &[u8]) -> (r: Vec<u8>)
    ensures
        r@ == spec_frame(data@),
{
    let mut r: Vec<u8> = Vec::new();
    r.push(data.len() as u8);
    let mut i: usize = 0;
    while i < data.len()
        invariant
            i <= data.len(),
            r@ == seq![data@.len() as u8] + data@.take(i as int),
        decreases data.len() - i,
    {
        r.push(data[i]);
        i = i + 1;
    }
    assert(data@.take(i as int) =~= data@);
    r
}

/// What to do with the bytes waiting on the port.
#[derive(Debug, Clone, Copy, PartialEq, Eq, Structural)]
pub enum ReadStep {
    /// Wait for more bytes.
    Wait,
    /// Read one byte: the length of the next message.
    ReadLength,
    /// Read the message, of this many bytes, and hand it to the printer.
    ReadPayload(u32),
}

/// Reads the messages of the controller off the port: first a length byte,
/// then, once that many bytes are waiting, the message.
#[derive(Debug, Clone, Copy, PartialEq, Eq, Structural)]
pub struct Receiver {
    /// Length of the message being waited for, once its length byte is read.
    pub wait: Option<u32>,
}

/// The step the receiver takes with `available` bytes waiting.
pub open spec fn spec_next_step(wait: Option<u32>, available: u32) -> ReadStep {
    if available == 0 {
        ReadStep::Wait
    } else {
        match wait {
            None => ReadStep::ReadLength,
            Some(w) => if available < w {
                ReadStep::Wait
            } else {
                ReadStep::ReadPayload(w)
            },
        }
    }
}

impl Receiver {
    pub fn new() -> (r: Receiver)
        ensures
            r.wait is None,
    {
        Receiver { wait: None }
    }

    pub fn next_step(&self, available: u32) -> (r: ReadStep)
        ensures
            r == spec_next_step(self.wait, available),
    {
        if available == 0 {
            return ReadStep::Wait;
        }
        match self.wait {
            None => ReadStep::ReadLength,
            Some(w) => if available < w {
                ReadStep::Wait
            } else {
                ReadStep::ReadPayload(w)
            },
        }
    }

    /// The length byte of the next message was read.
    pub fn length_read(&mut self, byte: u8)
        ensures
            final(self).wait == Some(byte as u32),
    {
        self.wait = Some(byte as u32);
    }

    /// The message was read.
    pub fn payload_read(&mut self)
        ensures
            final(self).wait is None,
    {
        self.wait = None;
    }
}

/// A message the sender frames is read back whole by a receiver that starts
/// between messages: it reads the length byte, which gives the message's
/// length, then the message itself, and is between messages again.
pub proof fn lemma_frame_read_back(data: Seq<u8>)
    requires
        0 < data.len() < 256,
    ensures
        spec_next_step(None, spec_frame(data).len() as u32) == ReadStep::ReadLength,
        spec_frame(data)[0] as u32 == data.len(),
        spec_next_step(Some(spec_frame(data)[0] as u32), data.len() as u32) == ReadStep::ReadPayload(
            data.len() as u32,
        ),
        spec_frame(data).drop_first() == data,
{
    assert(spec_frame(data).drop_first() =~= data);
}

/// A receiver waiting for a message of `w` bytes reads it as soon as that
/// many bytes (and at least one) are waiting, however many more follow, and
/// waits only while fewer are there; between messages it reads the length
/// byte of the next one as soon as any byte waits.
pub proof fn lemma_receiver_reads_when_ready(w: u32, available: u32)
    ensures
        available > 0 && available >= w ==> spec_next_step(Some(w), available) == ReadStep::ReadPayload(w),
        available < w ==> spec_next_step(Some(w), available) == ReadStep::Wait,
        available > 0 ==> spec_next_step(None, available) == ReadStep::ReadLength,
        spec_next_step(None, 0) == ReadStep::Wait,
        spec_next_step(Some(w), 0) == ReadStep::Wait,
{
}

} // verus!
