//! The ways in which reading a Tiled document can fail.

use vstd::prelude::*;

verus! {

/// An error that occurred while reading a document.
#[derive(Debug)]
pub enum Error {
    /// An attribute was missing, had the wrong type or wasn't formatted properly.
    MalformedAttributes(String),
    /// The XML reader reported an error, or a text was no valid UTF-8.
    XmlDecodingError(String),
    /// The document ended before its structure was complete.
    PrematureEnd(String),
    /// A property's value does not fit its declared type.
    InvalidPropertyValue { description: String },
    /// A property declares a type that does not exist.
    UnknownPropertyType { property_type: String },
    /// A Wang ID does not consist of eight comma-separated values.
    InvalidWangIdEncoding { read_string: String },
    /// A resource could not be read.
    ResourceLoadingError { path: String, message: String },
}

/// [`Error`] with its texts taken as character sequences.
pub enum ErrorView {
    MalformedAttributes(Seq<char>),
    XmlDecodingError(Seq<char>),
    PrematureEnd(Seq<char>),
    InvalidPropertyValue { description: Seq<char> },
    UnknownPropertyType { property_type: Seq<char> },
    InvalidWangIdEncoding { read_string: Seq<char> },
    ResourceLoadingError { path: Seq<char>, message: Seq<char> },
}

impl View for Error {
    type V = ErrorView;

    open spec fn view(&self) -> ErrorView {
        match self {
            Error::MalformedAttributes(s) => ErrorView::MalformedAttributes(s@),
            Error::XmlDecodingError(s) => ErrorView::XmlDecodingError(s@),
            Error::PrematureEnd(s) => ErrorView::PrematureEnd(s@),
            Error::InvalidPropertyValue { description } => ErrorView::InvalidPropertyValue {
                description: description@,
            },
            Error::UnknownPropertyType { property_type } => ErrorView::UnknownPropertyType {
                property_type: property_type@,
            },
            Error::InvalidWangIdEncoding { read_string } => ErrorView::InvalidWangIdEncoding {
                read_string: read_string@,
            },
            Error::ResourceLoadingError { path, message } => ErrorView::ResourceLoadingError {
                path: path@,
                message: message@,
            },
        }
    }
}

} // verus!
