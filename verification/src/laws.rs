//! What holds of encoding and decoding together.

use vstd::prelude::*;
use vstd::utf8::*;
use crate::command::{lemma_name_round_trip, lemma_names_are_upper_case, Command};
use crate::decoder::{advanced, decoded, DecoderView};
use crate::error::DecodeError;
use crate::frame::{
    framed, has_content_length, header_block, header_line, line_end, receipt_key, Frame,
    FrameView,
};
use crate::header::{content_length_key, header_of_line, HeaderView};
use crate::text::{
    decimal, is_digit, lemma_ascii_is_utf8, lemma_decimal_digits, lemma_decimal_is_ascii,
    lemma_position_is, parse_length, piece, signed_decimal, trim_line_end, COLON, CR, LF, NUL,
};

verus! {

/// Whether `s` holds neither a colon nor a line feed.
pub open spec fn is_plain(s: Seq<u8>) -> bool {
    forall|i: int| 0 <= i < s.len() ==> #[trigger] s[i] != COLON && s[i] != LF
}

/// Whether a header's key and value are text.
pub open spec fn is_text(h: HeaderView) -> bool {
    valid_utf8(h.key) && valid_utf8(h.value)
}

/// Whether a header comes back from its line as it was written: key and value
/// hold neither a colon nor a line feed, and a `content-length` value is a
/// decimal length.
pub open spec fn survives(h: HeaderView) -> bool {
    &&& is_plain(h.key)
    &&& is_plain(h.value)
    &&& h.key == content_length_key() ==> parse_length(h.value) is Some
}

/// The length that headers declare, read after `before` was declared: that of
/// the last `content-length` header, or `before` where there is none.
pub open spec fn declared_length(before: Option<usize>, headers: Seq<HeaderView>) -> Option<usize>
    decreases headers.len(),
{
    if headers.len() == 0 {
        before
    } else {
        declared_length(
            if headers[0].key == content_length_key() {
                parse_length(headers[0].value)
            } else {
                before
            },
            headers.drop_first(),
        )
    }
}

/// A line that holds no line feed is the first piece of what starts with it,
/// and it is itself without its ending.
pub proof fn lemma_line_is_first_piece(text: Seq<u8>, rest: Seq<u8>)
    requires
        forall|i: int| 0 <= i < text.len() ==> text[i] != LF,
    ensures
        piece(text + line_end() + rest, LF) == Some(text + line_end()),
        trim_line_end(text + line_end()) == text,
{
    let line = text + line_end();
    let data = line + rest;
    lemma_position_is(data, LF, text.len() as int + 1);
    assert(data.subrange(0, text.len() as int + 2) =~= line);
    assert(line.drop_last() =~= text + seq![CR]);
    assert((text + seq![CR]).drop_last() =~= text);
}

/// The line of a header that survives holds that header.
pub proof fn lemma_header_line_decodes(h: HeaderView)
    requires
        is_text(h),
        survives(h),
    ensures
        header_of_line(h.key + seq![COLON] + h.value) == Ok::<HeaderView, DecodeError>(h),
{
    let text = h.key + seq![COLON] + h.value;
    lemma_position_is(text, COLON, h.key.len() as int);
    assert(text.subrange(0, h.key.len() as int) =~= h.key);
    assert(text.subrange(h.key.len() as int + 1, text.len() as int) =~= h.value);
    lemma_position_is(h.value, COLON, h.value.len() as int);
}

/// The lines of two lists of headers, one after the other, are the lines of
/// the joined list.
pub proof fn lemma_header_block_concat(a: Seq<HeaderView>, b: Seq<HeaderView>)
    ensures
        header_block(a + b) == header_block(a) + header_block(b),
    decreases b.len(),
{
    if b.len() == 0 {
        assert(a + b =~= a);
        assert(header_block(a) + header_block(b) =~= header_block(a));
    } else {
        lemma_header_block_concat(a, b.drop_last());
        assert((a + b).drop_last() =~= a + b.drop_last());
        assert((a + b).last() == b.last());
        assert(header_block(a + b) =~= header_block(a) + header_block(b));
    }
}

/// The lines of a single header are its line.
pub proof fn lemma_header_block_single(h: HeaderView)
    ensures
        header_block(seq![h]) == header_line(h),
{
    assert(seq![h].drop_last() =~= Seq::<HeaderView>::empty());
    assert(header_block(seq![h].drop_last()) =~= Seq::<u8>::empty());
    assert(header_block(seq![h]) =~= header_line(h));
}

/// The length that two lists of headers declare, one after the other.
pub proof fn lemma_declared_length_concat(
    before: Option<usize>,
    a: Seq<HeaderView>,
    b: Seq<HeaderView>,
)
    ensures
        declared_length(before, a + b) == declared_length(declared_length(before, a), b),
    decreases a.len(),
{
    if a.len() == 0 {
        assert(a + b =~= b);
    } else {
        let next = if a[0].key == content_length_key() {
            parse_length(a[0].value)
        } else {
            before
        };
        assert((a + b).drop_first() =~= a.drop_first() + b);
        lemma_declared_length_concat(next, a.drop_first(), b);
    }
}

/// A decoder in the header block reads the lines of headers that survive, and
/// holds them afterwards.
pub proof fn lemma_headers_decode(
    command: Command,
    seen: Seq<HeaderView>,
    declared: Option<usize>,
    headers: Seq<HeaderView>,
    rest: Seq<u8>,
)
    requires
        forall|i: int| 0 <= i < headers.len() ==> is_text(#[trigger] headers[i]) && survives(headers[i]),
    ensures
        (DecoderView::InHeaders { command, headers: seen, declared }).run(
            header_block(headers) + rest,
        ) == advanced(
            (DecoderView::InHeaders {
                command,
                headers: seen + headers,
                declared: declared_length(declared, headers),
            }).run(rest),
            header_block(headers).len() as int,
        ),
    decreases headers.len(),
{
    let state = DecoderView::InHeaders { command, headers: seen, declared };
    let input = header_block(headers) + rest;
    if headers.len() == 0 {
        assert(input =~= rest);
        assert(seen + headers =~= seen);
    } else {
        let h = headers[0];
        let others = headers.drop_first();
        let text = h.key + seq![COLON] + h.value;
        let line = text + line_end();
        let after = header_block(others) + rest;
        assert(headers =~= seq![h] + others);
        lemma_header_block_concat(seq![h], others);
        lemma_header_block_single(h);
        assert(line =~= header_line(h));
        assert(input =~= text + line_end() + after);
        assert(is_text(h) && survives(h));
        assert(text[h.key.len() as int] == COLON);
        lemma_line_is_first_piece(text, after);
        lemma_header_line_decodes(h);
        let next_declared = if h.key == content_length_key() {
            parse_length(h.value)
        } else {
            declared
        };
        let next = DecoderView::InHeaders {
            command,
            headers: seen.push(h),
            declared: next_declared,
        };
        assert(state.step(input) == Ok::<(DecoderView, int), DecodeError>((next, line.len() as int)));
        assert(input.skip(line.len() as int) =~= after);
        assert forall|i: int| 0 <= i < others.len() implies is_text(#[trigger] others[i])
            && survives(others[i]) by {
            assert(others[i] == headers[i + 1]);
        }
        lemma_headers_decode(command, seen.push(h), next_declared, others, rest);
        assert(seen.push(h) + others =~= seen + headers);
        assert(header_block(headers).len() == line.len() + header_block(others).len());
    }
}

/// The keys that the encoder writes of its own accord are plain text, and
/// they differ.
pub proof fn lemma_own_keys()
    ensures
        is_plain(content_length_key()),
        is_plain(receipt_key()),
        valid_utf8(content_length_key()),
        valid_utf8(receipt_key()),
        receipt_key() != content_length_key(),
{
    reveal_strlit("content-length");
    reveal_strlit("receipt");
    is_ascii_chars_encode_utf8("content-length"@);
    is_ascii_chars_encode_utf8("receipt"@);
    encode_utf8_valid_utf8("content-length"@);
    encode_utf8_valid_utf8("receipt"@);
    assert forall|i: int| 0 <= i < content_length_key().len() implies #[trigger]
        content_length_key()[i] != COLON && content_length_key()[i] != LF by {
        assert(content_length_key()[i] == "content-length"@[i] as u8);
    }
    assert forall|i: int| 0 <= i < receipt_key().len() implies #[trigger] receipt_key()[i]
        != COLON && receipt_key()[i] != LF by {
        assert(receipt_key()[i] == "receipt"@[i] as u8);
    }
}

/// The decimal form of an integer is plain text.
pub proof fn lemma_decimal_is_plain(i: int)
    ensures
        is_plain(signed_decimal(i)),
        valid_utf8(signed_decimal(i)),
        i >= 0 ==> signed_decimal(i) == decimal(i as nat),
{
    let d = decimal(if i >= 0 { i as nat } else { (-i) as nat });
    lemma_decimal_digits(if i >= 0 { i as nat } else { (-i) as nat });
    assert forall|j: int| 0 <= j < d.len() implies #[trigger] d[j] != COLON && d[j] != LF by {
        assert(is_digit(d[j]));
    }
    let s = signed_decimal(i);
    assert forall|j: int| 0 <= j < s.len() implies #[trigger] s[j] != COLON && s[j] != LF by {
        if i < 0 && j > 0 {
            assert(s[j] == d[j - 1]);
        }
    }
    lemma_decimal_is_ascii(i);
    lemma_ascii_is_utf8(s);
}

/// Whether a frame comes back from its wire form: its headers are text and
/// survive, a `content-length` that it holds declares the length of its
/// body, the body fits the machine word, and it holds no NUL.
pub open spec fn round_trips(frame: FrameView) -> bool {
    &&& forall|i: int|
        0 <= i < frame.headers.len() ==> is_text(#[trigger] frame.headers[i]) && survives(
            frame.headers[i],
        )
    &&& has_content_length(frame.headers) ==> declared_length(None, frame.headers) == Some(
        frame.body.len() as usize,
    )
    &&& frame.body.len() <= usize::MAX
    &&& forall|i: int| 0 <= i < frame.body.len() ==> frame.body[i] != NUL
}

/// What holds of every frame by the types of its parts: its headers are
/// text, and its body fits the machine word.
pub proof fn lemma_frame_is_well_formed(frame: Frame)
    ensures
        forall|i: int| 0 <= i < frame@.headers.len() ==> is_text(#[trigger] frame@.headers[i]),
        frame@.body.len() <= usize::MAX,
{
    assert forall|i: int| 0 <= i < frame@.headers.len() implies is_text(
        #[trigger] frame@.headers[i],
    ) by {
        assert(frame@.headers[i] == frame.headers@[i]@);
        encode_utf8_valid_utf8(frame.headers@[i].key@);
        encode_utf8_valid_utf8(frame.headers@[i].value@);
    }
    assert(frame.body.len() == frame.body@.len());
}

/// The headers that are written for a frame that round-trips survive, and
/// they declare the length of its body.
pub proof fn lemma_emitted_headers_survive(frame: FrameView, receipt: Option<i64>)
    requires
        round_trips(frame),
    ensures
        forall|i: int|
            0 <= i < frame.emitted_headers(receipt).len() ==> is_text(
                #[trigger] frame.emitted_headers(receipt)[i],
            ) && survives(frame.emitted_headers(receipt)[i]),
        declared_length(None, frame.emitted_headers(receipt)) == Some(frame.body.len() as usize),
{
    let emitted = frame.emitted_headers(receipt);
    let length_header = HeaderView {
        key: content_length_key(),
        value: decimal(frame.body.len()),
    };
    let length_part = if has_content_length(frame.headers) {
        Seq::<HeaderView>::empty()
    } else {
        seq![length_header]
    };
    let receipt_part = match receipt {
        Some(id) => seq![HeaderView { key: receipt_key(), value: signed_decimal(id as int) }],
        None => Seq::<HeaderView>::empty(),
    };
    lemma_own_keys();
    lemma_decimal_is_plain(frame.body.len() as int);
    lemma_decimal_digits(frame.body.len());
    if receipt is Some {
        lemma_decimal_is_plain(receipt->Some_0 as int);
    }
    assert(is_text(length_header) && survives(length_header));
    assert forall|i: int| 0 <= i < emitted.len() implies is_text(#[trigger] emitted[i])
        && survives(emitted[i]) by {
        if i < frame.headers.len() {
            assert(emitted[i] == frame.headers[i]);
        } else if i < frame.headers.len() + length_part.len() {
            assert(emitted[i] == length_header);
        } else {
            assert(emitted[i] == receipt_part[0]);
        }
    }
    lemma_declared_length_concat(None, frame.headers + length_part, receipt_part);
    lemma_declared_length_concat(None, frame.headers, length_part);
    let own = declared_length(None, frame.headers);
    assert(declared_length(own, length_part) == Some(frame.body.len() as usize)) by {
        if !has_content_length(frame.headers) {
            assert(length_part.drop_first().len() == 0);
            assert(declared_length(parse_length(length_header.value), length_part.drop_first())
                == parse_length(length_header.value));
        }
    }
    assert(declared_length(Some(frame.body.len() as usize), receipt_part) == Some(
        frame.body.len() as usize,
    )) by {
        if receipt is Some {
            assert(receipt_part.drop_first().len() == 0);
            assert(declared_length(Some(frame.body.len() as usize), receipt_part.drop_first())
                == Some(frame.body.len() as usize));
        }
    }
}

/// What decoding gives for bytes in the wire format, whatever follows them.
/// The headers must be text and survive, and the body must hold no NUL.
/// Where the headers declare no length, that is the error. Where they declare
/// a length that is not the length of the body, that is the error: the body
/// is neither cut short nor read past its terminator. Otherwise the command,
/// the headers and the body come back, and exactly the framed bytes are used.
pub proof fn lemma_framed_decodes(
    command: Command,
    headers: Seq<HeaderView>,
    body: Seq<u8>,
    tail: Seq<u8>,
)
    requires
        forall|i: int| 0 <= i < headers.len() ==> is_text(#[trigger] headers[i]) && survives(headers[i]),
        forall|i: int| 0 <= i < body.len() ==> body[i] != NUL,
        body.len() <= usize::MAX,
    ensures
        decoded(framed(command, headers, body) + tail) == match declared_length(None, headers) {
            None => Err::<(FrameView, int), DecodeError>(DecodeError::MissingContentLength),
            Some(declared) => if body.len() == declared {
                Ok(
                    (
                        FrameView { command, headers, body },
                        framed(command, headers, body).len() as int,
                    ),
                )
            } else {
                Err(DecodeError::BodyLengthMismatch { observed: body.len() as usize, declared })
            },
        },
{
    let name = command.wire_name();
    let block = header_block(headers);
    let ending = body + seq![NUL] + tail;
    let after_block = line_end() + ending;
    let after_name = block + after_block;
    let input = framed(command, headers, body) + tail;
    assert(input =~= name + line_end() + after_name);

    // The command line.
    lemma_names_are_upper_case(command);
    lemma_name_round_trip(command);
    lemma_line_is_first_piece(name, after_name);
    let in_headers = DecoderView::InHeaders { command, headers: Seq::empty(), declared: None };
    assert(DecoderView::AwaitingCommand.step(input) == Ok::<(DecoderView, int), DecodeError>(
        (in_headers, name.len() as int + 2),
    ));
    assert(input.skip(name.len() as int + 2) =~= after_name);

    // The header lines.
    lemma_headers_decode(command, Seq::empty(), None, headers, after_block);
    assert(Seq::<HeaderView>::empty() + headers =~= headers);
    let closing = DecoderView::InHeaders {
        command,
        headers,
        declared: declared_length(None, headers),
    };

    // The blank line.
    assert(after_block =~= Seq::<u8>::empty() + line_end() + ending);
    lemma_line_is_first_piece(Seq::empty(), ending);
    assert(Seq::<u8>::empty() + line_end() =~= line_end());
    match declared_length(None, headers) {
        None => {
            assert(closing.step(after_block) == Err::<(DecoderView, int), DecodeError>(
                DecodeError::MissingContentLength,
            ));
        },
        Some(length) => {
            let in_body = DecoderView::InBody { command, headers, length };
            assert(closing.step(after_block) == Ok::<(DecoderView, int), DecodeError>(
                (in_body, 2),
            ));
            assert(after_block.skip(2) =~= ending);

            // The body.
            lemma_position_is(ending, NUL, body.len() as int);
            assert(ending.subrange(0, body.len() as int + 1) =~= body + seq![NUL]);
            assert((body + seq![NUL]).drop_last() =~= body);
            if body.len() == length {
                let whole = FrameView { command, headers, body };
                let complete = DecoderView::Complete { frame: whole };
                assert(in_body.step(ending) == Ok::<(DecoderView, int), DecodeError>(
                    (complete, body.len() as int + 1),
                ));
                assert(complete.run(ending.skip(body.len() as int + 1)) == Ok::<
                    (FrameView, int),
                    DecodeError,
                >((whole, 0)));
                assert(in_body.run(ending) == Ok::<(FrameView, int), DecodeError>(
                    (whole, body.len() as int + 1),
                ));
                assert(closing.run(after_block) == Ok::<(FrameView, int), DecodeError>(
                    (whole, body.len() as int + 3),
                ));
                assert(in_headers.run(after_name) == Ok::<(FrameView, int), DecodeError>(
                    (whole, block.len() + body.len() as int + 3),
                ));
            } else {
                let mismatch = DecodeError::BodyLengthMismatch {
                    observed: body.len() as usize,
                    declared: length,
                };
                assert(in_body.step(ending) == Err::<(DecoderView, int), DecodeError>(mismatch));
                assert(in_body.run(ending) == Err::<(FrameView, int), DecodeError>(mismatch));
                assert(closing.run(after_block) == Err::<(FrameView, int), DecodeError>(
                    mismatch,
                ));
            }
        },
    }
}

/// Decoding the wire form of a frame gives the frame back, with the headers
/// that were written for it, and uses exactly the bytes of the wire form,
/// whatever follows them.
pub proof fn lemma_round_trip(frame: FrameView, receipt: Option<i64>, tail: Seq<u8>)
    requires
        round_trips(frame),
    ensures
        decoded(frame.wire(receipt) + tail) == Ok::<(FrameView, int), DecodeError>(
            (
                FrameView {
                    command: frame.command,
                    headers: frame.emitted_headers(receipt),
                    body: frame.body,
                },
                frame.wire(receipt).len() as int,
            ),
        ),
{
    lemma_emitted_headers_survive(frame, receipt);
    lemma_framed_decodes(frame.command, frame.emitted_headers(receipt), frame.body, tail);
}

/// A blank line before a frame is skipped: what follows decodes as it does
/// alone, and the blank line counts among the bytes used. The line may end
/// in a carriage return and a line feed, or in a line feed only.
pub proof fn lemma_blank_line_is_skipped(input: Seq<u8>)
    ensures
        decoded(line_end() + input) == advanced(decoded(input), 2),
        decoded(seq![LF] + input) == advanced(decoded(input), 1),
{
    let start = DecoderView::AwaitingCommand;
    let long = line_end() + input;
    lemma_position_is(long, LF, 1);
    assert(long.subrange(0, 2) =~= line_end());
    assert(line_end().drop_last() =~= seq![CR]);
    assert(seq![CR].drop_last() =~= Seq::<u8>::empty());
    assert(trim_line_end(line_end()).len() == 0);
    assert(start.step(long) == Ok::<(DecoderView, int), DecodeError>((start, 2)));
    assert(long.skip(2) =~= input);

    let short = seq![LF] + input;
    lemma_position_is(short, LF, 0);
    assert(short.subrange(0, 1) =~= seq![LF]);
    assert(seq![LF].drop_last() =~= Seq::<u8>::empty());
    assert(trim_line_end(seq![LF]).len() == 0);
    assert(start.step(short) == Ok::<(DecoderView, int), DecodeError>((start, 1)));
    assert(short.skip(1) =~= input);
}

/// A frame that holds a `content-length` header is written with its own
/// headers and no other: none is added, and the value that it holds stands
/// as it is, whatever the length of the body.
pub proof fn lemma_supplied_length_is_kept(frame: FrameView)
    requires
        has_content_length(frame.headers),
    ensures
        frame.emitted_headers(None) == frame.headers,
        frame.wire(None) == framed(frame.command, frame.headers, frame.body),
{
    assert(frame.emitted_headers(None) =~= frame.headers);
}

/// A frame that holds no `content-length` header is written with one more
/// header, after its own: the length of its body in decimal digits.
pub proof fn lemma_missing_length_is_added(frame: FrameView)
    requires
        !has_content_length(frame.headers),
    ensures
        frame.emitted_headers(None) == frame.headers.push(
            HeaderView { key: content_length_key(), value: decimal(frame.body.len()) },
        ),
{
    assert(frame.emitted_headers(None) =~= frame.headers.push(
        HeaderView { key: content_length_key(), value: decimal(frame.body.len()) },
    ));
}

} // verus!
