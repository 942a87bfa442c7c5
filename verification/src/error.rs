use crate::text::{decimal, decimal_string};
use vstd::prelude::*;

verus! {

/// What can go wrong when talking to the remote repository.
#[derive(Debug, Clone, PartialEq, Eq)]
pub enum APIError {
    /// The repository answered with a status outside 200..=299: the status and
    /// the address asked.
    HttpStatus(u16, String),
    /// The repository could not be reached: the address asked and the cause.
    RequestError(String, String),
    /// The answer was no JSON document.
    InvalidJson,
    /// No base endpoint is set.
    Unauthenticated,
    /// Anything else, in words.
    Other(String),
}

/// The mathematical content of an `APIError`.
pub enum ErrorView {
    HttpStatus(nat, Seq<char>),
    RequestError(Seq<char>, Seq<char>),
    InvalidJson,
    Unauthenticated,
    Other(Seq<char>),
}

impl View for APIError {
    type V = ErrorView;

    open spec fn view(&self) -> ErrorView {
        match *self {
            APIError::HttpStatus(status, url) => ErrorView::HttpStatus(status as nat, url@),
            APIError::RequestError(url, cause) => ErrorView::RequestError(url@, cause@),
            APIError::InvalidJson => ErrorView::InvalidJson,
            APIError::Unauthenticated => ErrorView::Unauthenticated,
            APIError::Other(text) => ErrorView::Other(text@),
        }
    }
}

/// The words in which an error is reported.
pub open spec fn message_of(e: ErrorView) -> Seq<char> {
    match e {
        ErrorView::HttpStatus(status, url) => "Request failed with status "@ + decimal(status)
            + " for "@ + url,
        ErrorView::RequestError(url, cause) => "Unable to reach "@ + url + ": "@ + cause,
        ErrorView::InvalidJson => "Response is not JSON"@,
        ErrorView::Unauthenticated => "Not logged in. Please log in first."@,
        ErrorView::Other(text) => text,
    }
}

impl APIError {
    /// The words in which the error is reported.
    pub fn message(&self) -> (r: String)
        ensures
            r@ == message_of(self@),
    {
        match self {
            APIError::HttpStatus(status, url) => {
                let mut out = "Request failed with status ".to_owned();
                out.append(decimal_string(*status as usize).as_str());
                out.append(" for ");
                out.append(url.as_str());
                out
            },
            APIError::RequestError(url, cause) => {
                let mut out = "Unable to reach ".to_owned();
                out.append(url.as_str());
                out.append(": ");
                out.append(cause.as_str());
                out
            },
            APIError::InvalidJson => "Response is not JSON".to_owned(),
            APIError::Unauthenticated => "Not logged in. Please log in first.".to_owned(),
            APIError::Other(text) => text.clone(),
        }
    }
}

} // verus!
