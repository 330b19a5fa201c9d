//! The failures of reading and writing JSON.

use vstd::prelude::*;

verus! {

/// Why a document could not be written or read.
#[derive(Clone, Debug, PartialEq)]
pub enum Error {
    /// A failure described by the data type at hand.
    Message(String),
    Eof,
    Syntax,
    ExpectedBoolean,
    ExpectedInteger,
    ExpectedString,
    ExpectedNull,
    ExpectedArray,
    ExpectedArrayComma,
    ExpectedArrayEnd,
    ExpectedMap,
    ExpectedMapColon,
    ExpectedMapComma,
    ExpectedMapEnd,
    ExpectedEnum,
    TrailingCharacters,
}

impl Error {
    /// The failure that carries `msg` as its description.
    pub fn custom(msg: &str) -> (error: Error)
        ensures
            error matches Error::Message(text) && text@ == msg@,
    {
        Error::Message(msg.to_owned())
    }

    /// The text of each failure.
    pub open spec fn text(&self) -> Seq<char> {
        match self {
            Error::Message(msg) => msg@,
            Error::Eof => "unexpected end of input"@,
            Error::Syntax => "syntax error"@,
            Error::ExpectedBoolean => "expected boolean error"@,
            Error::ExpectedInteger => "expected integer error"@,
            Error::ExpectedString => "expected string error"@,
            Error::ExpectedNull => "expected null error"@,
            Error::ExpectedArray => "expected array error"@,
            Error::ExpectedArrayComma => "expected array comma error"@,
            Error::ExpectedArrayEnd => "expected array end error"@,
            Error::ExpectedMap => "expected map error"@,
            Error::ExpectedMapColon => "expected map colon error"@,
            Error::ExpectedMapComma => "expected map comma error"@,
            Error::ExpectedMapEnd => "expected map end error"@,
            Error::ExpectedEnum => "expected enum error"@,
            Error::TrailingCharacters => "expected trailing characters error"@,
        }
    }

    /// The text that describes the failure.
    pub fn to_string(&self) -> (text: String)
        ensures
            text@ == self.text(),
    {
        match self {
            Error::Message(msg) => msg.clone(),
            Error::Eof => "unexpected end of input".to_owned(),
            Error::Syntax => "syntax error".to_owned(),
            Error::ExpectedBoolean => "expected boolean error".to_owned(),
            Error::ExpectedInteger => "expected integer error".to_owned(),
            Error::ExpectedString => "expected string error".to_owned(),
            Error::ExpectedNull => "expected null error".to_owned(),
            Error::ExpectedArray => "expected array error".to_owned(),
            Error::ExpectedArrayComma => "expected array comma error".to_owned(),
            Error::ExpectedArrayEnd => "expected array end error".to_owned(),
            Error::ExpectedMap => "expected map error".to_owned(),
            Error::ExpectedMapColon => "expected map colon error".to_owned(),
            Error::ExpectedMapComma => "expected map comma error".to_owned(),
            Error::ExpectedMapEnd => "expected map end error".to_owned(),
            Error::ExpectedEnum => "expected enum error".to_owned(),
            Error::TrailingCharacters => "expected trailing characters error".to_owned(),
        }
    }
}

} // verus!
