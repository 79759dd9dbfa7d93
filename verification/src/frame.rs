//! The unit of exchange: a command, headers and a body.

use vstd::prelude::*;
use vstd::utf8::*;
use crate::command::Command;
use crate::header::{content_length_key, header_views, Header, HeaderView};
use crate::text::{
    append_bytes, decimal, lemma_ascii_is_utf8, lemma_decimal_is_ascii, signed_decimal,
    text_of, write_decimal, write_signed_decimal, COLON, CR, LF, NUL,
};

verus! {

/// The model of a frame.
pub struct FrameView {
    pub command: Command,
    pub headers: Seq<HeaderView>,
    pub body: Seq<u8>,
}

/// The ending of every line that is written.
pub open spec fn line_end() -> Seq<u8> {
    seq![CR, LF]
}

/// The key of the header that asks for a receipt.
pub open spec fn receipt_key() -> Seq<u8> {
    encode_utf8("receipt"@)
}

/// A header as a line: key, colon, value, line ending.
pub open spec fn header_line(h: HeaderView) -> Seq<u8> {
    h.key + seq![COLON] + h.value + line_end()
}

/// The lines of the headers, in order.
pub open spec fn header_block(headers: Seq<HeaderView>) -> Seq<u8>
    decreases headers.len(),
{
    if headers.len() == 0 {
        Seq::empty()
    } else {
        header_block(headers.drop_last()) + header_line(headers.last())
    }
}

/// The wire format: the command line, the header lines, a blank line, the
/// body and the terminating NUL.
pub open spec fn framed(command: Command, headers: Seq<HeaderView>, body: Seq<u8>) -> Seq<u8> {
    command.wire_name() + line_end() + header_block(headers) + line_end() + body + seq![NUL]
}

/// Whether one of the headers declares the length of the body.
pub open spec fn has_content_length(headers: Seq<HeaderView>) -> bool {
    exists|i: int| 0 <= i < headers.len() && (#[trigger] headers[i]).key == content_length_key()
}

impl FrameView {
    /// The headers that are written for this frame: its own, in their order;
    /// then a `content-length` with the length of the body, unless the frame
    /// holds such a header already; then a `receipt`, where one is asked for.
    pub open spec fn emitted_headers(self, receipt: Option<i64>) -> Seq<HeaderView> {
        self.headers + (if has_content_length(self.headers) {
            Seq::<HeaderView>::empty()
        } else {
            seq![HeaderView { key: content_length_key(), value: decimal(self.body.len()) }]
        }) + (match receipt {
            Some(id) => seq![HeaderView { key: receipt_key(), value: signed_decimal(id as int) }],
            None => Seq::<HeaderView>::empty(),
        })
    }

    /// The frame on the wire, with the headers that are written for it.
    pub open spec fn wire(self, receipt: Option<i64>) -> Seq<u8> {
        framed(self.command, self.emitted_headers(receipt), self.body)
    }
}

/// One protocol message. Headers keep the order in which they were given.
#[derive(Debug, Clone, PartialEq, Eq)]
pub struct Frame {
    pub command: Command,
    pub headers: Vec<Header>,
    pub body: Vec<u8>,
}

impl View for Frame {
    type V = FrameView;

    open spec fn view(&self) -> FrameView {
        FrameView {
            command: self.command,
            headers: header_views(self.headers@),
            body: self.body@,
        }
    }
}

/// Header lines made of text are well-formed UTF-8.
pub proof fn lemma_header_block_is_text(headers: Seq<HeaderView>)
    requires
        forall|i: int|
            0 <= i < headers.len() ==> valid_utf8((#[trigger] headers[i]).key) && valid_utf8(
                headers[i].value,
            ),
    ensures
        valid_utf8(header_block(headers)),
    decreases headers.len(),
{
    if headers.len() > 0 {
        let h = headers.last();
        lemma_header_block_is_text(headers.drop_last());
        lemma_ascii_is_utf8(seq![COLON]);
        lemma_ascii_is_utf8(line_end());
        valid_utf8_concat(h.key, seq![COLON]);
        valid_utf8_concat(h.key + seq![COLON], h.value);
        valid_utf8_concat(h.key + seq![COLON] + h.value, line_end());
        valid_utf8_concat(header_block(headers.drop_last()), header_line(h));
    }
}

/// The header block of a longer list is that of the list before its last
/// header, and that header's line.
pub proof fn lemma_header_block_push(headers: Seq<HeaderView>, h: HeaderView)
    ensures
        header_block(headers.push(h)) == header_block(headers) + header_line(h),
{
    assert(headers.push(h).drop_last() =~= headers);
}

/// The wire form of a frame whose headers and body are text is well-formed
/// UTF-8.
pub proof fn lemma_wire_is_text(frame: FrameView, receipt: Option<i64>)
    requires
        forall|i: int|
            0 <= i < frame.headers.len() ==> valid_utf8((#[trigger] frame.headers[i]).key)
                && valid_utf8(frame.headers[i].value),
        valid_utf8(frame.body),
    ensures
        valid_utf8(frame.wire(receipt)),
{
    let emitted = frame.emitted_headers(receipt);
    let start = frame.command.wire_name() + line_end();
    assert forall|j: int| 0 <= j < emitted.len() implies valid_utf8((#[trigger] emitted[j]).key)
        && valid_utf8(emitted[j].value) by {
        if j < frame.headers.len() {
            assert(emitted[j] == frame.headers[j]);
        } else {
            encode_utf8_valid_utf8("content-length"@);
            encode_utf8_valid_utf8("receipt"@);
            lemma_decimal_is_ascii(frame.body.len() as int);
            lemma_ascii_is_utf8(decimal(frame.body.len()));
            if receipt is Some {
                lemma_decimal_is_ascii(receipt->Some_0 as int);
                lemma_ascii_is_utf8(signed_decimal(receipt->Some_0 as int));
            }
        }
    }
    lemma_header_block_is_text(emitted);
    lemma_ascii_is_utf8(line_end());
    lemma_ascii_is_utf8(seq![NUL]);
    encode_utf8_valid_utf8(frame.command.name());
    valid_utf8_concat(frame.command.wire_name(), line_end());
    valid_utf8_concat(start, header_block(emitted));
    valid_utf8_concat(start + header_block(emitted), line_end());
    valid_utf8_concat(start + header_block(emitted) + line_end(), frame.body);
    valid_utf8_concat(start + header_block(emitted) + line_end() + frame.body, seq![NUL]);
}

/// Appends a header as a line.
fn write_header_line(out: &mut Vec<u8>, key: &[u8], value: &[u8])
    ensures
        final(out)@ == old(out)@ + header_line(HeaderView { key: key@, value: value@ }),
{
    append_bytes(out, key);
    out.push(COLON);
    append_bytes(out, value);
    out.push(CR);
    out.push(LF);
    proof {
        assert(final(out)@ =~= old(out)@ + header_line(HeaderView { key: key@, value: value@ }));
    }
}

/// Appends the lines of `headers`, and says whether one of them declares the
/// length of the body.
fn write_headers(out: &mut Vec<u8>, headers: &Vec<Header>) -> (has_length: bool)
    ensures
        final(out)@ == old(out)@ + header_block(header_views(headers@)),
        has_length == has_content_length(header_views(headers@)),
{
    let ghost views = header_views(headers@);
    let mut has_length = false;
    let mut i: usize = 0;
    proof {
        assert(out@ =~= old(out)@ + header_block(views.take(0)));
    }
    while i < headers.len()
        invariant
            i <= headers@.len(),
            views == header_views(headers@),
            out@ == old(out)@ + header_block(views.take(i as int)),
            has_length == has_content_length(views.take(i as int)),
        decreases headers@.len() - i,
    {
        let header = &headers[i];
        if header.is_content_length() {
            has_length = true;
        }
        write_header_line(out, header.key.as_str().as_bytes(), header.value.as_str().as_bytes());
        proof {
            let before = views.take(i as int);
            let after = views.take(i + 1);
            assert(after =~= before.push(views[i as int]));
            lemma_header_block_push(before, views[i as int]);
            assert(out@ =~= old(out)@ + header_block(after));
            if has_content_length(before) {
                let j = choose|j: int|
                    0 <= j < before.len() && (#[trigger] before[j]).key == content_length_key();
                assert(after[j].key == content_length_key());
            }
            if views[i as int].key == content_length_key() {
                assert(after[i as int].key == content_length_key());
            }
            if has_content_length(after) {
                let j = choose|j: int|
                    0 <= j < after.len() && (#[trigger] after[j]).key == content_length_key();
                if j < i {
                    assert(before[j].key == content_length_key());
                }
            }
        }
        i += 1;
    }
    proof {
        assert(views.take(i as int) =~= views);
    }
    has_length
}

impl Frame {
    /// The frame as wire text, without a receipt.
    pub fn to_string(&self) -> (s: String)
        requires
            valid_utf8(self.body@),
        ensures
            encode_utf8(s@) == self@.wire(None),
    {
        self.serialize(None)
    }

    /// The frame as wire bytes. With a receipt identifier, a `receipt` header
    /// that holds it is written last.
    pub fn encode(&self, receipt: Option<i64>) -> (out: Vec<u8>)
        ensures
            out@ == self@.wire(receipt),
    {
        let mut out: Vec<u8> = Vec::new();
        append_bytes(&mut out, self.command.as_str().as_bytes());
        out.push(CR);
        out.push(LF);
        let ghost views = header_views(self.headers@);
        let ghost start = self.command.wire_name() + line_end();
        let ghost emitted = self@.emitted_headers(receipt);
        proof {
            assert(out@ =~= start);
        }
        let has_length = write_headers(&mut out, &self.headers);
        let ghost length_header = HeaderView {
            key: content_length_key(),
            value: decimal(self.body@.len()),
        };
        if !has_length {
            let mut digits: Vec<u8> = Vec::new();
            write_decimal(&mut digits, self.body.len() as u64);
            write_header_line(&mut out, "content-length".as_bytes(), digits.as_slice());
            proof {
                assert(digits@ =~= decimal(self.body@.len()));
                lemma_header_block_push(views, length_header);
                assert(out@ =~= start + header_block(views.push(length_header)));
            }
        }
        let ghost with_length = if has_length {
            views
        } else {
            views.push(length_header)
        };
        match receipt {
            Some(id) => {
                let mut digits: Vec<u8> = Vec::new();
                write_signed_decimal(&mut digits, id);
                write_header_line(&mut out, "receipt".as_bytes(), digits.as_slice());
                proof {
                    let receipt_header = HeaderView {
                        key: receipt_key(),
                        value: signed_decimal(id as int),
                    };
                    assert(digits@ =~= signed_decimal(id as int));
                    lemma_header_block_push(with_length, receipt_header);
                    assert(emitted =~= with_length.push(receipt_header));
                    assert(out@ =~= start + header_block(emitted));
                }
            },
            None => {
                proof {
                    assert(emitted =~= with_length);
                    assert(out@ =~= start + header_block(emitted));
                }
            },
        }
        out.push(CR);
        out.push(LF);
        append_bytes(&mut out, self.body.as_slice());
        out.push(NUL);
        proof {
            assert(out@ =~= self@.wire(receipt));
        }
        out
    }

    /// The frame as wire text. With a receipt identifier, a `receipt` header
    /// that holds it is written last. The body must be text.
    pub fn serialize(&self, receipt: Option<i64>) -> (s: String)
        requires
            valid_utf8(self.body@),
        ensures
            encode_utf8(s@) == self@.wire(receipt),
    {
        let out = self.encode(receipt);
        proof {
            assert forall|i: int| 0 <= i < self@.headers.len() implies valid_utf8(
                (#[trigger] self@.headers[i]).key,
            ) && valid_utf8(self@.headers[i].value) by {
                assert(self@.headers[i] == self.headers@[i]@);
                encode_utf8_valid_utf8(self.headers@[i].key@);
                encode_utf8_valid_utf8(self.headers@[i].value@);
            }
            lemma_wire_is_text(self@, receipt);
            decode_utf8_encode_utf8(out@);
        }
        text_of(out.as_slice()).unwrap().to_owned()
    }
}

} // verus!
