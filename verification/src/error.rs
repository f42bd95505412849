//! The ways in which talking to the modem can fail.

use vstd::prelude::*;

verus! {

/// The modem answered, but not with what the call can go on with.
#[derive(Clone, Debug, PartialEq, Eq)]
pub enum ProtocolError {
    /// The reply's status is none of those that the call accepts; the status
    /// is carried as the modem sent it.
    UnexpectedStatus(String),
    /// The reply's status is `ERROR`: the modem refused the action although
    /// the transport reported success.
    ApplicationError,
}

/// Why a call did not bring what was asked for.
#[derive(Clone, Debug, PartialEq, Eq)]
pub enum Error {
    /// The transport did not deliver a reply of status 200; the status that
    /// came instead is carried.
    TransportError(u16),
    ProtocolError(ProtocolError),
    /// The reply is no JSON document of the expected structure.
    DecodeError,
    /// A delimited field does not follow its grammar; the offending text is
    /// carried.
    MalformedField(String),
}

/// An error as a mathematical value.
pub enum ErrorView {
    TransportError(u16),
    UnexpectedStatus(Seq<char>),
    ApplicationError,
    DecodeError,
    MalformedField(Seq<char>),
}

impl View for Error {
    type V = ErrorView;

    open spec fn view(&self) -> ErrorView {
        match self {
            Error::TransportError(status) => ErrorView::TransportError(*status),
            Error::ProtocolError(ProtocolError::UnexpectedStatus(status)) => ErrorView::UnexpectedStatus(
                status@,
            ),
            Error::ProtocolError(ProtocolError::ApplicationError) => ErrorView::ApplicationError,
            Error::DecodeError => ErrorView::DecodeError,
            Error::MalformedField(text) => ErrorView::MalformedField(text@),
        }
    }
}

impl Error {
    /// Whether this is a `MalformedField` that carries `text`.
    pub open spec fn is_malformed(self, text: Seq<char>) -> bool {
        self@ == ErrorView::MalformedField(text)
    }
}

} // verus!
