//! The state of one client connection: the bytes received but not yet
//! parsed, and the bytes encoded but not yet sent.

use vstd::prelude::*;
use bytes::BytesMut;
use crate::buffers::{
    bytes_mut_advance, bytes_mut_as_slice, bytes_mut_contents, bytes_mut_extend, bytes_mut_is_empty,
    bytes_mut_with_capacity,
};
use crate::frame::{FrameView, RespFrame, WriteError, encode_frame, frame_encoding};
use crate::resp::{
    CheckOutcome, ParseOutcome, ParsedView, array_parsed, check_frame, find_oversized_bulk_header,
    has_oversized_bulk_header, parse_frame_bytes, resp_check, resp_parse,
};

verus! {

/// Why reading a frame failed.
#[derive(Debug, PartialEq, Eq, Clone, Copy)]
pub enum ConnectionError {
    /// The received bytes do not form a valid frame.
    InvalidFrame,
    /// The peer closed the connection in the middle of a frame.
    ConnectionReset,
}

/// One client connection, without its socket: what has been received and
/// what waits to be sent.
pub struct Connection {
    buffer: BytesMut,
    outgoing: Vec<u8>,
}

/// Room reserved for received bytes when a connection opens.
pub const READ_BUFFER_CAPACITY: usize = 4096;

impl Connection {
    /// The bytes received and not yet consumed by a parsed frame.
    pub closed spec fn buffered(&self) -> Seq<u8> {
        bytes_mut_contents(self.buffer)
    }

    /// The encoded frames that wait to be sent, in order.
    pub closed spec fn pending_output(&self) -> Seq<u8> {
        self.outgoing@
    }

    /// A connection that has received and written nothing.
    pub fn new() -> (r: Connection)
        ensures
            r.buffered() == Seq::<u8>::empty(),
            r.pending_output() == Seq::<u8>::empty(),
    {
        Connection { buffer: bytes_mut_with_capacity(READ_BUFFER_CAPACITY), outgoing: Vec::new() }
    }

    /// Takes in bytes read from the socket.
    pub fn receive(&mut self, data: &[u8])
        requires
            old(self).buffered().len() + data@.len() <= isize::MAX,
        ensures
            final(self).buffered() == old(self).buffered() + data@,
            final(self).pending_output() == old(self).pending_output(),
    {
        bytes_mut_extend(&mut self.buffer, data);
    }

    /// How many received bytes wait to be parsed.
    pub fn buffered_len(&self) -> (r: usize)
        ensures
            r == self.buffered().len(),
    {
        bytes_mut_as_slice(&self.buffer).len()
    }

    /// Whether reading the frame at the front of the received bytes, the
    /// frame parser would come to a bulk header whose length it overflows on.
    pub fn has_oversized_bulk_header(&self) -> (r: bool)
        ensures
            r == has_oversized_bulk_header(self.buffered()),
    {
        find_oversized_bulk_header(bytes_mut_as_slice(&self.buffer))
    }

    /// Parses one frame from the front of the received bytes, without
    /// reading more. A parsed frame's bytes are consumed; otherwise the
    /// received bytes stay as they are. `Ok(None)` asks for more bytes.
    pub fn parse_frame(&mut self) -> (r: Result<Option<RespFrame>, ConnectionError>)
        requires
            !has_oversized_bulk_header(old(self).buffered()),
        ensures
            final(self).pending_output() == old(self).pending_output(),
            match resp_check(old(self).buffered()) {
                CheckOutcome::Invalid => {
                    &&& r == Err::<Option<RespFrame>, ConnectionError>(
                        ConnectionError::InvalidFrame,
                    )
                    &&& final(self).buffered() == old(self).buffered()
                },
                CheckOutcome::Incomplete => {
                    &&& r matches Ok(None)
                    &&& final(self).buffered() == old(self).buffered()
                },
                CheckOutcome::Complete(n) => match resp_parse(old(self).buffered()) {
                    ParsedView::Parsed(frame, m) => {
                        &&& m == n
                        &&& r matches Ok(Some(f)) && f.view() == frame
                        &&& (frame matches FrameView::Array(parts) ==> array_parsed(old(self).buffered(), parts, m as int))
                        &&& final(self).buffered() == old(self).buffered().skip(m as int)
                    },
                    ParsedView::Incomplete => {
                        &&& r matches Ok(None)
                        &&& final(self).buffered() == old(self).buffered()
                    },
                    ParsedView::Invalid => {
                        &&& r == Err::<Option<RespFrame>, ConnectionError>(
                            ConnectionError::InvalidFrame,
                        )
                        &&& final(self).buffered() == old(self).buffered()
                    },
                },
            },
    {
        let data = bytes_mut_as_slice(&self.buffer);
        match check_frame(data) {
            CheckOutcome::Invalid => Err(ConnectionError::InvalidFrame),
            CheckOutcome::Incomplete => Ok(None),
            CheckOutcome::Complete(_) => match parse_frame_bytes(data) {
                ParseOutcome::Parsed(frame, len) => {
                    bytes_mut_advance(&mut self.buffer, len);
                    Ok(Some(frame))
                },
                ParseOutcome::Incomplete => Ok(None),
                ParseOutcome::Invalid => Err(ConnectionError::InvalidFrame),
            },
        }
    }

    /// What reading yields when the peer has closed the connection: the end
    /// of the stream if nothing is left over, an error if a frame was cut.
    pub fn end_of_stream(&self) -> (r: Result<Option<RespFrame>, ConnectionError>)
        ensures
            self.buffered().len() == 0 ==> r matches Ok(None),
            self.buffered().len() != 0 ==> r == Err::<Option<RespFrame>, ConnectionError>(
                ConnectionError::ConnectionReset,
            ),
    {
        if bytes_mut_is_empty(&self.buffer) {
            Ok(None)
        } else {
            Err(ConnectionError::ConnectionReset)
        }
    }

    /// Queues the encoding of `frame` for sending. An array frame is refused
    /// and nothing is queued.
    pub fn write_frame(&mut self, frame: &RespFrame) -> (r: Result<(), WriteError>)
        ensures
            final(self).buffered() == old(self).buffered(),
            match frame_encoding(*frame) {
                Some(bytes) => {
                    &&& r is Ok
                    &&& final(self).pending_output() == old(self).pending_output() + bytes
                },
                None => {
                    &&& r == Err::<(), WriteError>(WriteError::ArrayUnsupported)
                    &&& final(self).pending_output() == old(self).pending_output()
                },
            },
    {
        match encode_frame(frame) {
            Ok(bytes) => {
                let mut bytes = bytes;
                self.outgoing.append(&mut bytes);
                Ok(())
            },
            Err(e) => Err(e),
        }
    }

    /// Hands over the queued bytes for sending; none stay queued.
    pub fn take_output(&mut self) -> (r: Vec<u8>)
        ensures
            r@ == old(self).pending_output(),
            final(self).pending_output() == Seq::<u8>::empty(),
            final(self).buffered() == old(self).buffered(),
    {
        let mut out: Vec<u8> = Vec::new();
        std::mem::swap(&mut out, &mut self.outgoing);
        out
    }
}

} // verus!
