//! The write path: the one place where envelopes become bytes on the way
//! out. Frames are queued whole and in the order of the calls, so no two of
//! them interleave; the embedding code drains the queue into the transport.

use vstd::prelude::*;
use crate::bytes::push_all;
use crate::codec::{encode, spec_encodable, spec_encode, spec_record_len, EncodeError, MAX_FRAME_LEN};
use crate::envelope::Envelope;

verus! {

/// Why an envelope was not sent.
#[derive(Clone, Copy, Debug, PartialEq, Eq, Structural)]
pub enum SendError {
    /// The stream has been torn down.
    TransportClosed,
    /// The envelope does not keep to the schema.
    NotWellFormed,
    /// The envelope does not fit a frame.
    TooLarge,
    /// The connection has no correlation id left to give out.
    IdsExhausted,
}

/// The mathematical value of a [`Writer`].
pub struct WriterView {
    /// Whether the stream behind the writer is up.
    pub open: bool,
    /// The bytes queued for the transport, oldest first.
    pub pending: Seq<u8>,
}

/// The ordered outgoing queue of one stream.
#[derive(Debug)]
pub struct Writer {
    open: bool,
    pending: Vec<u8>,
}

impl View for Writer {
    type V = WriterView;

    closed spec fn view(&self) -> WriterView {
        WriterView { open: self.open, pending: self.pending@ }
    }
}

impl Writer {
    /// A writer over a fresh stream: open, with nothing queued.
    pub fn new() -> (w: Writer)
        ensures
            w@ == (WriterView { open: true, pending: Seq::<u8>::empty() }),
    {
        Writer { open: true, pending: Vec::new() }
    }

    /// Whether the stream is up.
    pub fn is_open(&self) -> (open: bool)
        ensures
            open == self@.open,
    {
        self.open
    }

    /// The number of bytes queued.
    pub fn pending_len(&self) -> (n: usize)
        ensures
            n == self@.pending.len(),
    {
        self.pending.len()
    }

    /// Queues the frame of `e` behind everything queued before. Fails, and
    /// leaves the queue as it was, when the stream is down or `e` has no
    /// frame.
    pub fn send(&mut self, e: &Envelope) -> (res: Result<(), SendError>)
        ensures
            match res {
                Ok(()) => {
                    &&& old(self)@.open
                    &&& spec_encodable(e@)
                    &&& final(self)@ == (WriterView {
                        open: true,
                        pending: old(self)@.pending + spec_encode(e@),
                    })
                },
                Err(SendError::TransportClosed) => !old(self)@.open && final(self)@ == old(self)@,
                Err(SendError::NotWellFormed) => {
                    &&& old(self)@.open
                    &&& !e@.well_formed()
                    &&& final(self)@ == old(self)@
                },
                Err(SendError::TooLarge) => {
                    &&& old(self)@.open
                    &&& e@.well_formed()
                    &&& spec_record_len(e@) > MAX_FRAME_LEN
                    &&& final(self)@ == old(self)@
                },
                Err(SendError::IdsExhausted) => false,
            },
    {
        if !self.open {
            return Err(SendError::TransportClosed);
        }
        match encode(e) {
            Ok(frame) => {
                push_all(&mut self.pending, &frame);
                Ok(())
            },
            Err(EncodeError::NotWellFormed) => Err(SendError::NotWellFormed),
            Err(EncodeError::TooLarge) => Err(SendError::TooLarge),
        }
    }

    /// Hands out the queued bytes, oldest first, and leaves the queue empty.
    pub fn take_pending(&mut self) -> (bytes: Vec<u8>)
        ensures
            bytes@ == old(self)@.pending,
            final(self)@ == (WriterView { open: old(self)@.open, pending: Seq::<u8>::empty() }),
    {
        let mut bytes: Vec<u8> = Vec::new();
        std::mem::swap(&mut self.pending, &mut bytes);
        bytes
    }

    /// Marks the stream as torn down. What was still queued is lost with it.
    pub fn close(&mut self)
        ensures
            final(self)@ == (WriterView { open: false, pending: Seq::<u8>::empty() }),
    {
        self.open = false;
        self.pending = Vec::new();
    }

    /// Puts a fresh stream behind the writer: open, with nothing queued.
    pub fn replace_stream(&mut self)
        ensures
            final(self)@ == (WriterView { open: true, pending: Seq::<u8>::empty() }),
    {
        self.open = true;
        self.pending = Vec::new();
    }
}

} // verus!
