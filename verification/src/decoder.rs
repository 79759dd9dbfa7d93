//! Decoding frames from bytes.
//!
//! A decoder takes a frame apart piece by piece: it reads lines until the
//! header block ends, then the body up to the terminating NUL. `decode` runs
//! a decoder over a buffer; a transport feeds one with what it reads.

use vstd::prelude::*;
use vstd::slice::{slice_subrange, slice_to_vec};
use crate::command::Command;
use crate::error::DecodeError;
use crate::frame::{Frame, FrameView};
use crate::header::{content_length_key, header_of_line, header_views, Header, HeaderView};
use crate::text::{
    find_byte, lemma_position, parse_length, piece, read_length, text_of, trim_line_end,
    trimmed_len, LF, NUL,
};

verus! {

/// The model of a decoder: how far into a frame it is, and what it holds of it.
pub enum DecoderView {
    /// Nothing but blank lines has been read.
    AwaitingCommand,
    /// The command line has been read and the header block is open.
    InHeaders { command: Command, headers: Seq<HeaderView>, declared: Option<usize> },
    /// The header block is closed; the body is to come.
    InBody { command: Command, headers: Seq<HeaderView>, length: usize },
    /// The frame is whole.
    Complete { frame: FrameView },
}

/// What a decoder reads next.
#[derive(Debug, Clone, Copy, PartialEq, Eq, Structural)]
pub enum Demand {
    /// A line: bytes up to and including a line feed.
    Line,
    /// The body: bytes up to and including a NUL.
    Body,
    /// Nothing: the frame is whole.
    Nothing,
}

/// The state after a command line. A blank line changes nothing. Any other
/// line must be text that names a command, case ignored.
pub open spec fn after_command_line(line: Seq<u8>) -> Result<DecoderView, DecodeError> {
    let text = trim_line_end(line);
    if text.len() == 0 {
        Ok(DecoderView::AwaitingCommand)
    } else {
        match Command::from_line(text) {
            Some(command) => Ok(
                DecoderView::InHeaders { command, headers: Seq::empty(), declared: None },
            ),
            None => Err(DecodeError::UnknownCommand),
        }
    }
}

/// The state after a line of the header block. A blank line closes the block,
/// which must have declared the length of the body by then. Any other line
/// must hold a header, which joins the others; of several `content-length`
/// headers the last one counts.
pub open spec fn after_header_line(
    command: Command,
    headers: Seq<HeaderView>,
    declared: Option<usize>,
    line: Seq<u8>,
) -> Result<DecoderView, DecodeError> {
    let text = trim_line_end(line);
    if text.len() == 0 {
        match declared {
            Some(length) => Ok(DecoderView::InBody { command, headers, length }),
            None => Err(DecodeError::MissingContentLength),
        }
    } else {
        match header_of_line(text) {
            Ok(h) => Ok(
                DecoderView::InHeaders {
                    command,
                    headers: headers.push(h),
                    declared: if h.key == content_length_key() {
                        parse_length(h.value)
                    } else {
                        declared
                    },
                },
            ),
            Err(e) => Err(e),
        }
    }
}

/// The state after the body, given with its terminator. The bytes before the
/// terminator must be as many as were declared.
pub open spec fn after_body(
    command: Command,
    headers: Seq<HeaderView>,
    declared: usize,
    chunk: Seq<u8>,
) -> Result<DecoderView, DecodeError> {
    let body = chunk.drop_last();
    if body.len() == declared {
        Ok(DecoderView::Complete { frame: FrameView { command, headers, body } })
    } else {
        Err(DecodeError::BodyLengthMismatch { observed: body.len() as usize, declared })
    }
}

/// Shifts the count of bytes used in an outcome by `by`.
pub open spec fn advanced<T>(outcome: Result<(T, int), DecodeError>, by: int) -> Result<
    (T, int),
    DecodeError,
> {
    match outcome {
        Ok((t, used)) => Ok((t, used + by)),
        Err(e) => Err(e),
    }
}

impl DecoderView {
    /// What the decoder reads next.
    pub open spec fn demand(self) -> Demand {
        match self {
            DecoderView::AwaitingCommand => Demand::Line,
            DecoderView::InHeaders { .. } => Demand::Line,
            DecoderView::InBody { .. } => Demand::Body,
            DecoderView::Complete { .. } => Demand::Nothing,
        }
    }

    /// One step: the decoder takes from the front of `data` the piece that it
    /// demands, and moves on. The outcome is the next state and the length of
    /// that piece. Data that holds no whole piece is truncated.
    pub open spec fn step(self, data: Seq<u8>) -> Result<(DecoderView, int), DecodeError> {
        match self {
            DecoderView::AwaitingCommand => match piece(data, LF) {
                Some(line) => match after_command_line(line) {
                    Ok(next) => Ok((next, line.len() as int)),
                    Err(e) => Err(e),
                },
                None => Err(DecodeError::Truncated),
            },
            DecoderView::InHeaders { command, headers, declared } => match piece(data, LF) {
                Some(line) => match after_header_line(command, headers, declared, line) {
                    Ok(next) => Ok((next, line.len() as int)),
                    Err(e) => Err(e),
                },
                None => Err(DecodeError::Truncated),
            },
            DecoderView::InBody { command, headers, length } => match piece(data, NUL) {
                Some(chunk) => match after_body(command, headers, length, chunk) {
                    Ok(next) => Ok((next, chunk.len() as int)),
                    Err(e) => Err(e),
                },
                None => Err(DecodeError::Truncated),
            },
            DecoderView::Complete { .. } => Ok((self, 0)),
        }
    }

    /// Steps until the frame is whole: the frame, and how many bytes of
    /// `input` belong to it.
    pub open spec fn run(self, input: Seq<u8>) -> Result<(FrameView, int), DecodeError>
        decreases input.len(),
    {
        match self {
            DecoderView::Complete { frame } => Ok((frame, 0)),
            _ => match self.step(input) {
                Ok((next, used)) => {
                    proof {
                        lemma_position(input, LF);
                        lemma_position(input, NUL);
                    }
                    advanced(next.run(input.skip(used)), used)
                },
                Err(e) => Err(e),
            },
        }
    }
}

/// What decoding `input` from a frame boundary gives: the frame, and how many
/// bytes of `input` belong to it.
pub open spec fn decoded(input: Seq<u8>) -> Result<(FrameView, int), DecodeError> {
    DecoderView::AwaitingCommand.run(input)
}

/// A step that succeeds before the frame is whole uses at least one byte, and
/// no more than there are.
pub proof fn lemma_step_uses(state: DecoderView, data: Seq<u8>)
    requires
        !(state is Complete),
        state.step(data) is Ok,
    ensures
        0 < state.step(data)->Ok_0.1 <= data.len(),
{
    lemma_position(data, LF);
    lemma_position(data, NUL);
}

/// The first line of `data` without its ending, and the length of the line
/// with it; nothing where `data` holds no line feed.
fn first_line(data: &[u8]) -> (r: Option<(&[u8], usize)>)
    ensures
        match r {
            Some((text, used)) => piece(data@, LF) matches Some(line) && text@ == trim_line_end(
                line,
            ) && used == line.len(),
            None => piece(data@, LF) is None,
        },
{
    let end = find_byte(data, 0, LF);
    proof {
        assert(data@.skip(0) =~= data@);
    }
    if end >= data.len() {
        return None;
    }
    let line = slice_subrange(data, 0, end + 1);
    let text = slice_subrange(line, 0, trimmed_len(line));
    Some((text, end + 1))
}

/// The command that a line names, taken without its ending.
fn read_command(text: &[u8]) -> (r: Option<Command>)
    ensures
        r == Command::from_line(text@),
{
    match text_of(text) {
        Some(name) => match Command::from_string(name) {
            Ok(command) => Some(command),
            Err(_) => None,
        },
        None => None,
    }
}

/// A decoder of one frame.
#[derive(Debug)]
pub enum FrameDecoder {
    /// Nothing but blank lines has been read.
    AwaitingCommand,
    /// The command line has been read and the header block is open.
    InHeaders { command: Command, headers: Vec<Header>, declared: Option<usize> },
    /// The header block is closed; the body is to come.
    InBody { command: Command, headers: Vec<Header>, length: usize },
    /// The frame is whole.
    Complete { frame: Frame },
}

impl View for FrameDecoder {
    type V = DecoderView;

    open spec fn view(&self) -> DecoderView {
        match *self {
            FrameDecoder::AwaitingCommand => DecoderView::AwaitingCommand,
            FrameDecoder::InHeaders { command, headers, declared } => DecoderView::InHeaders {
                command,
                headers: header_views(headers@),
                declared,
            },
            FrameDecoder::InBody { command, headers, length } => DecoderView::InBody {
                command,
                headers: header_views(headers@),
                length,
            },
            FrameDecoder::Complete { frame } => DecoderView::Complete { frame: frame@ },
        }
    }
}

impl FrameDecoder {
    /// A decoder at a frame boundary.
    pub fn new() -> (decoder: FrameDecoder)
        ensures
            decoder@ == DecoderView::AwaitingCommand,
    {
        FrameDecoder::AwaitingCommand
    }

    /// What to read next and hand to `feed`.
    pub fn demand(&self) -> (d: Demand)
        ensures
            d == self@.demand(),
    {
        match self {
            FrameDecoder::AwaitingCommand => Demand::Line,
            FrameDecoder::InHeaders { .. } => Demand::Line,
            FrameDecoder::InBody { .. } => Demand::Body,
            FrameDecoder::Complete { .. } => Demand::Nothing,
        }
    }

    /// The frame, once it is whole.
    pub fn into_frame(self) -> (r: Option<Frame>)
        ensures
            match r {
                Some(frame) => self@ == (DecoderView::Complete { frame: frame@ }),
                None => !(self@ is Complete),
            },
    {
        match self {
            FrameDecoder::Complete { frame } => Some(frame),
            _ => None,
        }
    }

    /// Takes from the front of `data` the piece that the decoder demands, and
    /// gives the decoder as it is after that piece, with the piece's length.
    pub fn feed(self, data: &[u8]) -> (r: Result<(FrameDecoder, usize), DecodeError>)
        ensures
            match r {
                Ok((next, used)) => self@.step(data@) == Ok::<(DecoderView, int), DecodeError>(
                    (next@, used as int),
                ),
                Err(e) => self@.step(data@) == Err::<(DecoderView, int), DecodeError>(e),
            },
    {
        match self {
            FrameDecoder::AwaitingCommand => {
                let (text, used) = match first_line(data) {
                    Some(line) => line,
                    None => {
                        return Err(DecodeError::Truncated);
                    },
                };
                if text.len() == 0 {
                    Ok((FrameDecoder::AwaitingCommand, used))
                } else {
                    match read_command(text) {
                        Some(command) => {
                            let headers: Vec<Header> = Vec::new();
                            proof {
                                assert(header_views(headers@) =~= Seq::<HeaderView>::empty());
                            }
                            Ok((FrameDecoder::InHeaders { command, headers, declared: None }, used))
                        },
                        None => Err(DecodeError::UnknownCommand),
                    }
                }
            },
            FrameDecoder::InHeaders { command, headers, declared } => {
                let (text, used) = match first_line(data) {
                    Some(line) => line,
                    None => {
                        return Err(DecodeError::Truncated);
                    },
                };
                if text.len() == 0 {
                    match declared {
                        Some(length) => Ok((FrameDecoder::InBody { command, headers, length }, used)),
                        None => Err(DecodeError::MissingContentLength),
                    }
                } else {
                    match Header::from_line(text) {
                        Ok(h) => {
                            let declared = if h.is_content_length() {
                                read_length(h.value.as_str().as_bytes())
                            } else {
                                declared
                            };
                            let ghost before = headers@;
                            let mut headers = headers;
                            headers.push(h);
                            proof {
                                assert(header_views(headers@) =~= header_views(before).push(h@));
                            }
                            Ok((FrameDecoder::InHeaders { command, headers, declared }, used))
                        },
                        Err(e) => Err(e),
                    }
                }
            },
            FrameDecoder::InBody { command, headers, length } => {
                let end = find_byte(data, 0, NUL);
                proof {
                    assert(data@.skip(0) =~= data@);
                }
                if end >= data.len() {
                    return Err(DecodeError::Truncated);
                }
                proof {
                    assert(data@.subrange(0, end + 1).drop_last() =~= data@.subrange(0, end as int));
                }
                if end != length {
                    return Err(DecodeError::BodyLengthMismatch { observed: end, declared: length });
                }
                let body = slice_to_vec(slice_subrange(data, 0, end));
                Ok((FrameDecoder::Complete { frame: Frame { command, headers, body } }, end + 1))
            },
            FrameDecoder::Complete { frame } => Ok((FrameDecoder::Complete { frame }, 0)),
        }
    }
}

/// Decodes one frame from the front of `input`, which starts at a frame
/// boundary. Gives the frame and the number of bytes that belong to it.
pub fn decode(input: &[u8]) -> (r: Result<(Frame, usize), DecodeError>)
    ensures
        match r {
            Ok((frame, used)) => decoded(input@) == Ok::<(FrameView, int), DecodeError>(
                (frame@, used as int),
            ),
            Err(e) => decoded(input@) == Err::<(FrameView, int), DecodeError>(e),
        },
        r matches Ok((_, used)) ==> used <= input@.len(),
{
    let mut decoder = FrameDecoder::new();
    let mut pos: usize = 0;
    proof {
        assert(input@.skip(0) =~= input@);
    }
    loop
        invariant
            pos <= input@.len(),
            decoded(input@) == advanced(decoder@.run(input@.skip(pos as int)), pos as int),
        decreases input@.len() - pos,
    {
        match decoder {
            FrameDecoder::Complete { frame } => {
                return Ok((frame, pos));
            },
            waiting => {
                let rest = slice_subrange(input, pos, input.len());
                proof {
                    assert(rest@ =~= input@.skip(pos as int));
                    if waiting@.step(rest@) is Ok {
                        lemma_step_uses(waiting@, rest@);
                        let used = waiting@.step(rest@)->Ok_0.1;
                        assert(rest@.skip(used) =~= input@.skip(pos + used));
                    }
                }
                match waiting.feed(rest) {
                    Ok((next, used)) => {
                        decoder = next;
                        pos = pos + used;
                    },
                    Err(e) => {
                        return Err(e);
                    },
                }
            },
        }
    }
}

} // verus!
