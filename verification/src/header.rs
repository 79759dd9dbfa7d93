//! Frame headers.

use vstd::prelude::*;
use vstd::slice::slice_subrange;
use vstd::utf8::*;
use crate::error::DecodeError;
use crate::text::{bytes_equal, find_byte, parse_length, position, read_length, text_of, COLON};

verus! {

/// The model of a header: its key and its value as the bytes they put on the
/// wire, which is their UTF-8 encoding.
pub struct HeaderView {
    pub key: Seq<u8>,
    pub value: Seq<u8>,
}

/// A key and a value, both text. A frame may hold the same key more than once.
#[derive(Debug, Clone, PartialEq, Eq)]
pub struct Header {
    pub key: String,
    pub value: String,
}

impl View for Header {
    type V = HeaderView;

    open spec fn view(&self) -> HeaderView {
        HeaderView { key: encode_utf8(self.key@), value: encode_utf8(self.value@) }
    }
}

/// The key of the header that declares the length of the body.
pub open spec fn content_length_key() -> Seq<u8> {
    encode_utf8("content-length"@)
}

/// The header that a line, taken without its ending, holds.
///
/// The line must hold exactly one colon, which parts the key from the value.
/// A `content-length` value must be a decimal length, and key and value must
/// be text.
pub open spec fn header_of_line(text: Seq<u8>) -> Result<HeaderView, DecodeError> {
    let k = position(text, COLON);
    let key = text.subrange(0, k);
    let value = text.subrange(k + 1, text.len() as int);
    if k >= text.len() || position(value, COLON) < value.len() {
        Err(DecodeError::MalformedHeader)
    } else if key == content_length_key() && parse_length(value) is None {
        Err(DecodeError::MalformedHeader)
    } else if !valid_utf8(key) || !valid_utf8(value) {
        Err(DecodeError::InvalidText)
    } else {
        Ok(HeaderView { key, value })
    }
}

impl Header {
    /// Whether this header declares the length of the body.
    pub fn is_content_length(&self) -> (r: bool)
        ensures
            r == (self@.key == content_length_key()),
    {
        bytes_equal(self.key.as_str().as_bytes(), "content-length".as_bytes())
    }

    /// Reads a header from a line that was taken without its ending.
    pub fn from_line(text: &[u8]) -> (r: Result<Header, DecodeError>)
        ensures
            match r {
                Ok(h) => header_of_line(text@) == Ok::<HeaderView, DecodeError>(h@),
                Err(e) => header_of_line(text@) == Err::<HeaderView, DecodeError>(e),
            },
    {
        let k = find_byte(text, 0, COLON);
        proof {
            assert(text@.skip(0) =~= text@);
        }
        if k >= text.len() {
            return Err(DecodeError::MalformedHeader);
        }
        let key = slice_subrange(text, 0, k);
        let value = slice_subrange(text, k + 1, text.len());
        let second = find_byte(text, k + 1, COLON);
        proof {
            assert(text@.skip(k + 1) =~= value@);
        }
        if second < text.len() {
            return Err(DecodeError::MalformedHeader);
        }
        if bytes_equal(key, "content-length".as_bytes()) && read_length(value).is_none() {
            return Err(DecodeError::MalformedHeader);
        }
        let key_text = match text_of(key) {
            Some(s) => s,
            None => {
                return Err(DecodeError::InvalidText);
            },
        };
        let value_text = match text_of(value) {
            Some(s) => s,
            None => {
                return Err(DecodeError::InvalidText);
            },
        };
        proof {
            decode_utf8_encode_utf8(key@);
            decode_utf8_encode_utf8(value@);
        }
        Ok(Header::new(key_text, value_text))
    }

    /// A header with the given key and value.
    pub fn new(key: &str, value: &str) -> (h: Header)
        ensures
            h.key@ == key@,
            h.value@ == value@,
    {
        Header { key: key.to_owned(), value: value.to_owned() }
    }
}

/// The models of a list of headers, in order.
pub open spec fn header_views(headers: Seq<Header>) -> Seq<HeaderView> {
    headers.map_values(|h: Header| h@)
}

} // verus!
