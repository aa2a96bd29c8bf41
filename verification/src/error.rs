use vstd::prelude::*;

verus! {

/// The error of `skrifa::raw::ReadError` (from `read_fonts`), carried through unchanged.
#[verifier::external_type_specification]
#[verifier::external_body]
pub struct ExReadError(skrifa::raw::ReadError);

/// The error of std's I/O, carried through unchanged.
#[verifier::external_type_specification]
#[verifier::external_body]
pub struct ExIoError(std::io::Error);

/// The error of `protobuf::text_format::ParseError`, carried through unchanged.
#[verifier::external_type_specification]
#[verifier::external_body]
pub struct ExProtobufParseError(protobuf::text_format::ParseError);

/// Everything that can go wrong while gathering push items.
#[derive(Debug)]
pub enum GftoolsError {
    /// A font's binary data could not be read.
    FontParse(skrifa::raw::ReadError),
    /// A JSON document did not have the expected shape.
    JsonParse(String),
    /// An HTML document could not be processed.
    HtmlParse(String),
    /// A file could not be read.
    FileRead(std::io::Error),
    /// Any other failure, described in words.
    Misc(String),
    /// A METADATA.pb file could not be parsed.
    ProtobufParse(protobuf::text_format::ParseError),
}

impl GftoolsError {
    /// The message carried by a `Misc` error, if this is one.
    pub open spec fn misc_message(self) -> Option<Seq<char>> {
        match self {
            GftoolsError::Misc(m) => Some(m@),
            _ => None,
        }
    }
}

} // verus!
