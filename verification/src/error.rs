//! What can go wrong while reading logs and service replies.

use vstd::prelude::*;
use vstd::string::*;

verus! {

/// The result of an operation of this library.
pub type QrzLogbookResult<T> = Result<T, QrzLogbookError>;

/// An error of the logbook rules.
#[derive(Debug)]
pub enum QrzLogbookError {
    /// The service answered with a failure and gave this reason.
    Api { reason: String },
    /// The service refused the key, or the key lacks the privilege.
    Auth,
    /// The API key does not have the shape of a key.
    InvalidKey,
    /// The user agent is empty, too long, or names a generic tool.
    InvalidUserAgent,
    /// The ADIF text is malformed.
    AdifParse(String),
    /// A request was asked for with parameters that cannot be sent.
    InvalidParams(String),
}

/// What an error is: its kind and the text it carries.
pub enum ErrorView {
    Api { reason: Seq<char> },
    Auth,
    InvalidKey,
    InvalidUserAgent,
    AdifParse(Seq<char>),
    InvalidParams(Seq<char>),
}

impl View for QrzLogbookError {
    type V = ErrorView;

    open spec fn view(&self) -> ErrorView {
        match self {
            QrzLogbookError::Api { reason } => ErrorView::Api { reason: reason@ },
            QrzLogbookError::Auth => ErrorView::Auth,
            QrzLogbookError::InvalidKey => ErrorView::InvalidKey,
            QrzLogbookError::InvalidUserAgent => ErrorView::InvalidUserAgent,
            QrzLogbookError::AdifParse(msg) => ErrorView::AdifParse(msg@),
            QrzLogbookError::InvalidParams(msg) => ErrorView::InvalidParams(msg@),
        }
    }
}

impl ErrorView {
    /// The sentence that describes the error.
    pub open spec fn message(self) -> Seq<char> {
        match self {
            ErrorView::Api { reason } => "API error: "@ + reason,
            ErrorView::Auth => "Authentication failed or insufficient privileges"@,
            ErrorView::InvalidKey => "Invalid API key format"@,
            ErrorView::InvalidUserAgent =>
                "Invalid user agent: must be 128 characters or less and identifiable"@,
            ErrorView::AdifParse(msg) => "ADIF parsing error: "@ + msg,
            ErrorView::InvalidParams(msg) => "Invalid parameters: "@ + msg,
        }
    }
}

impl QrzLogbookError {
    /// A failure that the service reported.
    pub fn api_error(reason: &str) -> (e: QrzLogbookError)
        ensures
            e@ == (ErrorView::Api { reason: reason@ }),
    {
        QrzLogbookError::Api { reason: reason.to_owned() }
    }

    /// Malformed ADIF text.
    pub fn adif_parse(msg: &str) -> (e: QrzLogbookError)
        ensures
            e@ == ErrorView::AdifParse(msg@),
    {
        QrzLogbookError::AdifParse(msg.to_owned())
    }

    /// Parameters that cannot be sent.
    pub fn invalid_params(msg: &str) -> (e: QrzLogbookError)
        ensures
            e@ == ErrorView::InvalidParams(msg@),
    {
        QrzLogbookError::InvalidParams(msg.to_owned())
    }

    /// The sentence that describes the error.
    pub fn message(&self) -> (s: String)
        ensures
            s@ == self@.message(),
    {
        match self {
            QrzLogbookError::Api { reason } => {
                let mut s = "API error: ".to_owned();
                s.append(reason.as_str());
                s
            },
            QrzLogbookError::Auth => "Authentication failed or insufficient privileges".to_owned(),
            QrzLogbookError::InvalidKey => "Invalid API key format".to_owned(),
            QrzLogbookError::InvalidUserAgent => {
                "Invalid user agent: must be 128 characters or less and identifiable".to_owned()
            },
            QrzLogbookError::AdifParse(msg) => {
                let mut s = "ADIF parsing error: ".to_owned();
                s.append(msg.as_str());
                s
            },
            QrzLogbookError::InvalidParams(msg) => {
                let mut s = "Invalid parameters: ".to_owned();
                s.append(msg.as_str());
                s
            },
        }
    }
}

} // verus!
