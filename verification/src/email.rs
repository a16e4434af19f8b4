//! The mail parser at the edge of the pipeline: bytes in, a structured
//! message out, and a permanent failure for bytes that are no message.

use crate::errors::{ErrorClass, ErrorKind, ErrorView};
use vstd::prelude::*;
use vstd::string::*;

verus! {

/// What `mailparse` makes of the bytes of a message: the text of its body,
/// where the bytes parse and the body decodes; no text, where they parse and
/// the body does not decode; and the parser's complaint, where they do not
/// parse.
pub uninterp spec fn mail_reading(data: Seq<u8>) -> Result<Option<Seq<char>>, Seq<char>>;

/// Two outside functions stand behind this one item and its one name:
/// `mailparse::parse_mail`, and `ParsedMail::get_body` on what it returns.
/// The parsed message borrows from the bytes and cannot leave this call, so
/// what is handed on is the text of its body, or the text that the parse
/// error displays as. Both functions compute from the bytes alone, so the
/// outcome is a function of the bytes.
#[verifier::external_body]
fn read_mail(data: &[u8]) -> (reading: Result<Option<String>, String>)
    ensures
        reading_view(reading) == mail_reading(data@),
{
    match mailparse::parse_mail(data) {
        Ok(mail) => Ok(mail.get_body().ok()),
        Err(e) => Err(e.to_string()),
    }
}

/// The view of what the parser hands on.
pub open spec fn reading_view(reading: Result<Option<String>, String>) -> Result<
    Option<Seq<char>>,
    Seq<char>,
> {
    match reading {
        Ok(Some(body)) => Ok(Some(body@)),
        Ok(None) => Ok(None),
        Err(cause) => Err(cause@),
    }
}

/// The failure that stands for bytes which are no message; `cause` is what
/// the parser said of them.
pub open spec fn unparsable(cause: Seq<char>) -> ErrorView {
    ErrorView { class: ErrorClass::Unrecoverable, reason: "Failed to parse mail with "@ + cause }
}

/// A parsed message, as far as the pipeline reads it.
#[derive(Debug)]
pub struct StructuredMessage {
    /// The text of the body, where it could be decoded.
    pub body: Option<String>,
}

impl StructuredMessage {
    /// The text of the body, where there is one.
    pub open spec fn body_view(&self) -> Option<Seq<char>> {
        match self.body {
            Some(text) => Some(text@),
            None => None,
        }
    }

    /// The text that is analyzed for this message: its body, or the empty
    /// text where the body could not be decoded.
    pub open spec fn text(&self) -> Seq<char> {
        match self.body {
            Some(text) => text@,
            None => Seq::empty(),
        }
    }

    /// The text that is analyzed for this message.
    pub fn get_body(self) -> (text: String)
        ensures
            text@ == self.text(),
    {
        match self.body {
            Some(text) => text,
            None => String::new(),
        }
    }
}

/// What the pipeline makes of a reading: a message, or the permanent
/// failure of the item.
pub open spec fn admitted(reading: Result<Option<Seq<char>>, Seq<char>>) -> Result<
    Option<Seq<char>>,
    ErrorView,
> {
    match reading {
        Ok(body) => Ok(body),
        Err(cause) => Err(unparsable(cause)),
    }
}

/// The view of the result of a parse.
pub open spec fn parsed_view(parsed: Result<StructuredMessage, ErrorKind>) -> Result<
    Option<Seq<char>>,
    ErrorView,
> {
    match parsed {
        Ok(message) => Ok(message.body_view()),
        Err(e) => Err(e@),
    }
}

/// Parses mail. It keeps no state.
#[derive(Clone, Copy, Debug, PartialEq, Eq, Structural)]
pub struct MailParser {}

impl MailParser {
    /// A mail parser.
    pub fn new() -> (parser: MailParser)
        ensures
            parser == (MailParser {  }),
    {
        MailParser {  }
    }

    /// Turns what the parser made of some bytes into a message or a
    /// failure. Bytes that are no message will never be one: the failure is
    /// unrecoverable, and carries the parser's complaint.
    pub fn accept(reading: Result<Option<String>, String>) -> (parsed: Result<
        StructuredMessage,
        ErrorKind,
    >)
        ensures
            parsed_view(parsed) == admitted(reading_view(reading)),
    {
        match reading {
            Ok(body) => Ok(StructuredMessage { body }),
            Err(cause) => Err(
                ErrorKind::UnrecoverableError(
                    String::from_str("Failed to parse mail with ").concat(cause.as_str()),
                ),
            ),
        }
    }

    /// Parses the bytes of a message.
    pub fn parse(&self, data: &[u8]) -> (parsed: Result<StructuredMessage, ErrorKind>)
        ensures
            parsed_view(parsed) == admitted(mail_reading(data@)),
    {
        Self::accept(read_mail(data))
    }
}

} // verus!
