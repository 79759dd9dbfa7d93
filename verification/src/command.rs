//! The protocol's commands and their textual names.

use vstd::prelude::*;
use vstd::utf8::*;
use crate::error::DecodeError;
use crate::text::{ascii_upper_text, bytes_equal, upper, upper_case_of};

verus! {

/// A protocol verb. The first eleven are sent by clients, the last four by
/// servers.
#[allow(non_camel_case_types)]
#[derive(Debug, Clone, Copy, PartialEq, Eq, Structural)]
pub enum Command {
    SEND,
    SUBSCRIBE,
    UNSUBSCRIBE,
    BEGIN,
    COMMIT,
    ABORT,
    ACK,
    NACK,
    DISCONNECT,
    CONNECT,
    STOMP,
    CONNECTED,
    MESSAGE,
    RECEIPT,
    ERROR,
}

impl Command {
    /// The command's canonical upper-case name.
    pub open spec fn name(self) -> Seq<char> {
        match self {
            Command::SEND => "SEND"@,
            Command::SUBSCRIBE => "SUBSCRIBE"@,
            Command::UNSUBSCRIBE => "UNSUBSCRIBE"@,
            Command::BEGIN => "BEGIN"@,
            Command::COMMIT => "COMMIT"@,
            Command::ABORT => "ABORT"@,
            Command::ACK => "ACK"@,
            Command::NACK => "NACK"@,
            Command::DISCONNECT => "DISCONNECT"@,
            Command::CONNECT => "CONNECT"@,
            Command::STOMP => "STOMP"@,
            Command::CONNECTED => "CONNECTED"@,
            Command::MESSAGE => "MESSAGE"@,
            Command::RECEIPT => "RECEIPT"@,
            Command::ERROR => "ERROR"@,
        }
    }

    /// The name as it stands on the wire.
    pub open spec fn wire_name(self) -> Seq<u8> {
        encode_utf8(self.name())
    }

    /// The command whose name is exactly `text`, if there is one.
    pub open spec fn from_exact_name(text: Seq<char>) -> Option<Command> {
        if text == Command::SEND.name() {
            Some(Command::SEND)
        } else if text == Command::SUBSCRIBE.name() {
            Some(Command::SUBSCRIBE)
        } else if text == Command::UNSUBSCRIBE.name() {
            Some(Command::UNSUBSCRIBE)
        } else if text == Command::BEGIN.name() {
            Some(Command::BEGIN)
        } else if text == Command::COMMIT.name() {
            Some(Command::COMMIT)
        } else if text == Command::ABORT.name() {
            Some(Command::ABORT)
        } else if text == Command::ACK.name() {
            Some(Command::ACK)
        } else if text == Command::NACK.name() {
            Some(Command::NACK)
        } else if text == Command::DISCONNECT.name() {
            Some(Command::DISCONNECT)
        } else if text == Command::CONNECT.name() {
            Some(Command::CONNECT)
        } else if text == Command::STOMP.name() {
            Some(Command::STOMP)
        } else if text == Command::CONNECTED.name() {
            Some(Command::CONNECTED)
        } else if text == Command::MESSAGE.name() {
            Some(Command::MESSAGE)
        } else if text == Command::RECEIPT.name() {
            Some(Command::RECEIPT)
        } else if text == Command::ERROR.name() {
            Some(Command::ERROR)
        } else {
            None
        }
    }

    /// The command that `text` names without regard to case: the one whose
    /// name is the upper-case form of `text`.
    pub open spec fn from_name(text: Seq<char>) -> Option<Command> {
        Command::from_exact_name(upper(text))
    }

    /// The command that the bytes of a line name. Bytes that are not text name
    /// none.
    pub open spec fn from_line(bytes: Seq<u8>) -> Option<Command> {
        if valid_utf8(bytes) {
            Command::from_name(decode_utf8(bytes))
        } else {
            None
        }
    }

    /// The canonical name as a string slice.
    pub fn as_str(&self) -> (s: &'static str)
        ensures
            s@ == self.name(),
    {
        match self {
            Command::SEND => "SEND",
            Command::SUBSCRIBE => "SUBSCRIBE",
            Command::UNSUBSCRIBE => "UNSUBSCRIBE",
            Command::BEGIN => "BEGIN",
            Command::COMMIT => "COMMIT",
            Command::ABORT => "ABORT",
            Command::ACK => "ACK",
            Command::NACK => "NACK",
            Command::DISCONNECT => "DISCONNECT",
            Command::CONNECT => "CONNECT",
            Command::STOMP => "STOMP",
            Command::CONNECTED => "CONNECTED",
            Command::MESSAGE => "MESSAGE",
            Command::RECEIPT => "RECEIPT",
            Command::ERROR => "ERROR",
        }
    }

    /// The canonical upper-case name.
    pub fn to_string(&self) -> (s: String)
        ensures
            s@ == self.name(),
    {
        self.as_str().to_owned()
    }

    fn is_named(self, text: &str) -> (r: bool)
        ensures
            r == (text@ == self.name()),
    {
        proof {
            encode_utf8_decode_utf8(text@);
            encode_utf8_decode_utf8(self.name());
        }
        bytes_equal(text.as_bytes(), self.as_str().as_bytes())
    }

    /// Reads a command from text that is in upper case already: the text must
    /// be one of the names, letter for letter.
    pub fn from_upper(text: &str) -> (r: Result<Command, DecodeError>)
        ensures
            r == match Command::from_exact_name(text@) {
                Some(c) => Ok::<Command, DecodeError>(c),
                None => Err(DecodeError::UnknownCommand),
            },
    {
        if Command::SEND.is_named(text) {
            Ok(Command::SEND)
        } else if Command::SUBSCRIBE.is_named(text) {
            Ok(Command::SUBSCRIBE)
        } else if Command::UNSUBSCRIBE.is_named(text) {
            Ok(Command::UNSUBSCRIBE)
        } else if Command::BEGIN.is_named(text) {
            Ok(Command::BEGIN)
        } else if Command::COMMIT.is_named(text) {
            Ok(Command::COMMIT)
        } else if Command::ABORT.is_named(text) {
            Ok(Command::ABORT)
        } else if Command::ACK.is_named(text) {
            Ok(Command::ACK)
        } else if Command::NACK.is_named(text) {
            Ok(Command::NACK)
        } else if Command::DISCONNECT.is_named(text) {
            Ok(Command::DISCONNECT)
        } else if Command::CONNECT.is_named(text) {
            Ok(Command::CONNECT)
        } else if Command::STOMP.is_named(text) {
            Ok(Command::STOMP)
        } else if Command::CONNECTED.is_named(text) {
            Ok(Command::CONNECTED)
        } else if Command::MESSAGE.is_named(text) {
            Ok(Command::MESSAGE)
        } else if Command::RECEIPT.is_named(text) {
            Ok(Command::RECEIPT)
        } else if Command::ERROR.is_named(text) {
            Ok(Command::ERROR)
        } else {
            Err(DecodeError::UnknownCommand)
        }
    }

    /// Reads a command from its name, without regard to case: the text is put
    /// in upper case, and must then be one of the names.
    pub fn from_string(string: &str) -> (r: Result<Command, DecodeError>)
        ensures
            r == match Command::from_exact_name(upper(string@)) {
                Some(c) => Ok::<Command, DecodeError>(c),
                None => Err(DecodeError::UnknownCommand),
            },
    {
        let upper_cased = upper_case_of(string);
        Command::from_upper(upper_cased.as_str())
    }
}

/// What the names are made of: every name is a string of upper-case ASCII
/// letters, and no two commands share a name.
pub proof fn lemma_names(c: Command, d: Command)
    ensures
        c.name().len() > 0,
        forall|i: int| 0 <= i < c.name().len() ==> 'A' <= #[trigger] c.name()[i] <= 'Z',
        c != d ==> c.name() != d.name(),
{
    reveal_strlit("SEND");
    reveal_strlit("SUBSCRIBE");
    reveal_strlit("UNSUBSCRIBE");
    reveal_strlit("BEGIN");
    reveal_strlit("COMMIT");
    reveal_strlit("ABORT");
    reveal_strlit("ACK");
    reveal_strlit("NACK");
    reveal_strlit("DISCONNECT");
    reveal_strlit("CONNECT");
    reveal_strlit("STOMP");
    reveal_strlit("CONNECTED");
    reveal_strlit("MESSAGE");
    reveal_strlit("RECEIPT");
    reveal_strlit("ERROR");
    if c != d && c.name().len() == d.name().len() {
        assert(c.name()[0] != d.name()[0]);
    }
}

/// On the wire every byte of a name is an upper-case letter.
pub proof fn lemma_names_are_upper_case(c: Command)
    ensures
        c.wire_name().len() > 0,
        forall|i: int| 0 <= i < c.wire_name().len() ==> 0x41 <= #[trigger] c.wire_name()[i] <= 0x5a,
{
    lemma_names(c, c);
    is_ascii_chars_encode_utf8(c.name());
    assert forall|i: int| 0 <= i < c.wire_name().len() implies 0x41 <= #[trigger] c.wire_name()[i]
        <= 0x5a by {
        assert('A' <= c.name()[i] <= 'Z');
        assert(c.wire_name()[i] == c.name()[i] as u8);
    }
}

/// Text is the exact name of a command when it is that command's name and of
/// no command when it is no command's name.
pub proof fn lemma_from_exact_name_is_exact(text: Seq<char>, c: Command)
    ensures
        Command::from_exact_name(text) == Some(c) <==> text == c.name(),
        Command::from_exact_name(text) is None <==> forall|d: Command| text != d.name(),
{
    if text == c.name() {
        assert forall|d: Command| d != c implies text != d.name() by {
            lemma_names(c, d);
        }
    }
}

/// ASCII text names a command exactly when it is the command's name with
/// its letters in either case.
pub proof fn lemma_ascii_names_ignore_case(text: Seq<char>, c: Command)
    requires
        is_ascii_chars(text),
    ensures
        Command::from_name(text) == Some(c) <==> ascii_upper_text(text) == c.name(),
{
    lemma_from_exact_name_is_exact(ascii_upper_text(text), c);
}

/// Each command is the one that its own name names, as text and on the wire.
pub proof fn lemma_name_round_trip(c: Command)
    ensures
        Command::from_name(c.name()) == Some(c),
        Command::from_line(c.wire_name()) == Some(c),
{
    lemma_names(c, c);
    assert(ascii_upper_text(c.name()) =~= c.name());
    lemma_from_exact_name_is_exact(c.name(), c);
    encode_utf8_valid_utf8(c.name());
    encode_utf8_decode_utf8(c.name());
}

} // verus!
