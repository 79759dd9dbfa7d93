//! The client session: the frames of the protocol's operations, and the
//! receipt counter.
//!
//! A session performs no I/O. Each operation gives the wire text of the frame
//! to send; the transport writes it, and reads the replies with a decoder.

use vstd::prelude::*;
use vstd::slice::slice_to_vec;
use vstd::utf8::*;
use crate::command::Command;
use crate::frame::{Frame, FrameView};
use crate::header::{header_views, Header, HeaderView};
use crate::text::{
    lemma_ascii_is_utf8, lemma_decimal_is_ascii, signed_decimal, text_of, write_signed_decimal,
};

verus! {

/// The model of a session.
pub struct SessionView {
    /// How many receipts have been asked for.
    pub receipt_count: int,
    /// Whether frames that are sent ask for a receipt.
    pub send_receipts: bool,
}

impl SessionView {
    /// The receipt identifier that the next frame carries, if it carries one.
    pub open spec fn next_receipt(self) -> Option<i64> {
        if self.send_receipts {
            Some((self.receipt_count + 1) as i64)
        } else {
            None
        }
    }

    /// The session after a frame was sent: with receipts asked for, the
    /// counter has grown by one.
    pub open spec fn after_send(self) -> SessionView {
        SessionView {
            receipt_count: if self.send_receipts {
                self.receipt_count + 1
            } else {
                self.receipt_count
            },
            send_receipts: self.send_receipts,
        }
    }

    /// Whether another frame can be sent without the counter leaving its range.
    pub open spec fn can_send(self) -> bool {
        self.send_receipts ==> self.receipt_count < i64::MAX
    }
}

/// A header given by the text of its key and of its value.
pub open spec fn text_header(key: Seq<char>, value: Seq<char>) -> HeaderView {
    HeaderView { key: encode_utf8(key), value: encode_utf8(value) }
}

/// The frame that opens a session.
pub open spec fn connect_frame() -> FrameView {
    FrameView {
        command: Command::CONNECT,
        headers: seq![text_header("accept-version"@, "1.1,1.2"@)],
        body: Seq::empty(),
    }
}

/// The frame that subscribes to `queue` under the identifier `id`, with
/// automatic acknowledgement.
pub open spec fn subscribe_frame(id: Seq<char>, queue: Seq<char>) -> FrameView {
    FrameView {
        command: Command::SUBSCRIBE,
        headers: seq![
            text_header("id"@, id),
            text_header("destination"@, queue),
            text_header("ack"@, "auto"@),
        ],
        body: Seq::empty(),
    }
}

/// The frame that sends `body` to `destination` as plain text.
pub open spec fn message_frame(destination: Seq<char>, body: Seq<u8>) -> FrameView {
    FrameView {
        command: Command::SEND,
        headers: seq![
            text_header("content-type"@, "text/plain"@),
            text_header("destination"@, destination),
        ],
        body,
    }
}

/// The frame that closes a session whose receipt counter stands at
/// `receipt_count`: it asks for a receipt under that number.
pub open spec fn disconnect_frame(receipt_count: int) -> FrameView {
    FrameView {
        command: Command::DISCONNECT,
        headers: seq![
            HeaderView { key: encode_utf8("receipt"@), value: signed_decimal(receipt_count) },
        ],
        body: Seq::empty(),
    }
}

/// The state of one client on one connection.
#[derive(Debug)]
pub struct ClientSession {
    receipt_count: i64,
    send_receipts: bool,
}

impl View for ClientSession {
    type V = SessionView;

    closed spec fn view(&self) -> SessionView {
        SessionView { receipt_count: self.receipt_count as int, send_receipts: self.send_receipts }
    }
}

impl ClientSession {
    /// A session that has sent nothing and asks for no receipts.
    pub fn new() -> (session: ClientSession)
        ensures
            session@ == (SessionView { receipt_count: 0, send_receipts: false }),
    {
        ClientSession { receipt_count: 0, send_receipts: false }
    }

    /// How many receipts have been asked for.
    pub fn receipt_count(&self) -> (n: i64)
        ensures
            n == self@.receipt_count,
    {
        self.receipt_count
    }

    /// Whether frames that are sent ask for a receipt.
    pub fn sends_receipts(&self) -> (b: bool)
        ensures
            b == self@.send_receipts,
    {
        self.send_receipts
    }

    /// Whether another frame can be sent without the counter leaving its range.
    pub fn can_send(&self) -> (b: bool)
        ensures
            b == self@.can_send(),
    {
        !self.send_receipts || self.receipt_count < i64::MAX
    }

    /// Turns asking for receipts on or off.
    pub fn set_send_receipts(&mut self, enabled: bool)
        ensures
            final(self)@ == (SessionView {
                receipt_count: old(self)@.receipt_count,
                send_receipts: enabled,
            }),
    {
        self.send_receipts = enabled;
    }

    /// Prepares `frame` for sending and gives its wire text. With receipts
    /// asked for, the counter grows by one first, and the frame carries the
    /// new count as its receipt identifier.
    pub fn send_frame(&mut self, frame: &Frame) -> (msg: String)
        requires
            old(self)@.can_send(),
            valid_utf8(frame.body@),
        ensures
            final(self)@ == old(self)@.after_send(),
            encode_utf8(msg@) == frame@.wire(old(self)@.next_receipt()),
    {
        let receipt = if self.send_receipts {
            self.receipt_count = self.receipt_count + 1;
            Some(self.receipt_count)
        } else {
            None
        };
        frame.serialize(receipt)
    }

    /// Gives the wire text of the frame that opens the session.
    pub fn connect(&mut self) -> (msg: String)
        requires
            old(self)@.can_send(),
        ensures
            final(self)@ == old(self)@.after_send(),
            encode_utf8(msg@) == connect_frame().wire(old(self)@.next_receipt()),
    {
        let mut headers: Vec<Header> = Vec::new();
        headers.push(Header::new("accept-version", "1.1,1.2"));
        let frame = Frame { command: Command::CONNECT, headers, body: Vec::new() };
        proof {
            assert(header_views(frame.headers@) =~= connect_frame().headers);
            assert(frame@ == connect_frame());
        }
        self.send_frame(&frame)
    }

    /// Gives the wire text of the frame that subscribes to `queue` under the
    /// identifier `id`.
    pub fn subscribe_to_queue(&mut self, id: &str, queue: &str) -> (msg: String)
        requires
            old(self)@.can_send(),
        ensures
            final(self)@ == old(self)@.after_send(),
            encode_utf8(msg@) == subscribe_frame(id@, queue@).wire(old(self)@.next_receipt()),
    {
        let mut headers: Vec<Header> = Vec::new();
        headers.push(Header::new("id", id));
        headers.push(Header::new("destination", queue));
        headers.push(Header::new("ack", "auto"));
        let frame = Frame { command: Command::SUBSCRIBE, headers, body: Vec::new() };
        proof {
            assert(header_views(frame.headers@) =~= subscribe_frame(id@, queue@).headers);
            assert(frame@ == subscribe_frame(id@, queue@));
        }
        self.send_frame(&frame)
    }

    /// Gives the wire text of the frame that sends `body`, which must be text,
    /// to `destination`.
    pub fn send_message(&mut self, destination: &str, body: &[u8]) -> (msg: String)
        requires
            old(self)@.can_send(),
            valid_utf8(body@),
        ensures
            final(self)@ == old(self)@.after_send(),
            encode_utf8(msg@) == message_frame(destination@, body@).wire(
                old(self)@.next_receipt(),
            ),
    {
        let mut headers: Vec<Header> = Vec::new();
        headers.push(Header::new("content-type", "text/plain"));
        headers.push(Header::new("destination", destination));
        let frame = Frame { command: Command::SEND, headers, body: slice_to_vec(body) };
        proof {
            assert(header_views(frame.headers@) =~= message_frame(destination@, body@).headers);
            assert(frame@ == message_frame(destination@, body@));
        }
        self.send_frame(&frame)
    }

    /// Ends the session and gives the wire text of its last frame, which asks
    /// for a receipt under the number at which the counter stands.
    pub fn disconnect(self) -> (msg: String)
        requires
            self@.can_send(),
        ensures
            encode_utf8(msg@) == disconnect_frame(self@.receipt_count).wire(self@.next_receipt()),
    {
        let mut session = self;
        let mut digits: Vec<u8> = Vec::new();
        write_signed_decimal(&mut digits, session.receipt_count);
        proof {
            assert(digits@ =~= signed_decimal(session.receipt_count as int));
            lemma_decimal_is_ascii(session.receipt_count as int);
            lemma_ascii_is_utf8(digits@);
            decode_utf8_encode_utf8(digits@);
        }
        let count = text_of(digits.as_slice()).unwrap();
        let mut headers: Vec<Header> = Vec::new();
        headers.push(Header::new("receipt", count));
        let frame = Frame { command: Command::DISCONNECT, headers, body: Vec::new() };
        proof {
            assert(header_views(frame.headers@) =~= disconnect_frame(self@.receipt_count).headers);
            assert(frame@ == disconnect_frame(self@.receipt_count));
        }
        session.send_frame(&frame)
    }
}

} // verus!
