//! The errors of parsing and of the queries that may miss a part.

use vstd::prelude::*;
use vstd::string::*;

verus! {

/// Why an address could not be parsed, or why a query on it has no answer.
#[derive(Debug)]
pub enum StackAddrError {
    /// A keyword stands without a token that it needs; the text names the
    /// missing part.
    MissingPart(&'static str),
    /// A token is no IPv4 or IPv6 address.
    InvalidAddress,
    /// A token is no port number.
    InvalidPort,
    /// A keyword is not known. Parsing never gives this: it reads an unknown
    /// keyword as a path.
    UnknownProtocol(String),
    /// A token could not be decoded; the text names the field.
    InvalidEncoding(&'static str),
    /// Name resolution failed; the text holds the resolver's words.
    ResolutionFailed(String),
}

/// An error with its texts as character sequences.
pub enum ErrorView {
    MissingPart(Seq<char>),
    InvalidAddress,
    InvalidPort,
    UnknownProtocol(Seq<char>),
    InvalidEncoding(Seq<char>),
    ResolutionFailed(Seq<char>),
}

impl View for StackAddrError {
    type V = ErrorView;

    open spec fn view(&self) -> ErrorView {
        match self {
            StackAddrError::MissingPart(s) => ErrorView::MissingPart(s@),
            StackAddrError::InvalidAddress => ErrorView::InvalidAddress,
            StackAddrError::InvalidPort => ErrorView::InvalidPort,
            StackAddrError::UnknownProtocol(s) => ErrorView::UnknownProtocol(s@),
            StackAddrError::InvalidEncoding(s) => ErrorView::InvalidEncoding(s@),
            StackAddrError::ResolutionFailed(s) => ErrorView::ResolutionFailed(s@),
        }
    }
}

impl ErrorView {
    /// The message of the error.
    pub open spec fn message(self) -> Seq<char> {
        match self {
            ErrorView::MissingPart(s) => "Missing "@ + s,
            ErrorView::InvalidAddress => "Invalid IP address"@,
            ErrorView::InvalidPort => "Invalid port"@,
            ErrorView::UnknownProtocol(s) => "Unknown protocol: "@ + s,
            ErrorView::InvalidEncoding(s) => "Invalid encoding: "@ + s,
            ErrorView::ResolutionFailed(s) => "Resolution failed: "@ + s,
        }
    }
}

impl StackAddrError {
    /// The message of the error.
    pub fn to_string(&self) -> (r: String)
        ensures
            r@ == self@.message(),
    {
        match self {
            StackAddrError::MissingPart(s) => String::from_str("Missing ").concat(s),
            StackAddrError::InvalidAddress => String::from_str("Invalid IP address"),
            StackAddrError::InvalidPort => String::from_str("Invalid port"),
            StackAddrError::UnknownProtocol(s) => String::from_str("Unknown protocol: ").concat(
                s.as_str(),
            ),
            StackAddrError::InvalidEncoding(s) => String::from_str("Invalid encoding: ").concat(s),
            StackAddrError::ResolutionFailed(s) => String::from_str("Resolution failed: ").concat(
                s.as_str(),
            ),
        }
    }
}

} // verus!
