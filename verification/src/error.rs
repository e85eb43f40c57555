use vstd::prelude::*;
use vstd::string::StringExecFns;

verus! {

/// Why a sample could not be taken from one completed call.
///
/// None of these is fatal for a session: the call is left out of the
/// statistics, and what was recorded before stays as it was.
#[derive(Debug, PartialEq, Eq)]
pub enum Error {
    /// The RPC client failed; the text is the client's own account of it.
    SDKClientError(String),
    /// The XDR codec failed, as when the envelope could not be encoded
    /// within the limits; the text is the codec's own account of it.
    SDKXdrError(String),
    /// The receipt carries no transaction metadata.
    MissingMeta,
    /// The metadata is of a version other than 4.
    UnsupportedMeta,
    /// The simulation carries no resource data.
    NoTransactionData,
}

/// What an [`Error`] stands for: the same cases, the words as text.
pub enum ErrorView {
    SDKClientError(Seq<char>),
    SDKXdrError(Seq<char>),
    MissingMeta,
    UnsupportedMeta,
    NoTransactionData,
}

impl View for Error {
    type V = ErrorView;

    open spec fn view(&self) -> ErrorView {
        match *self {
            Error::SDKClientError(words) => ErrorView::SDKClientError(words@),
            Error::SDKXdrError(words) => ErrorView::SDKXdrError(words@),
            Error::MissingMeta => ErrorView::MissingMeta,
            Error::UnsupportedMeta => ErrorView::UnsupportedMeta,
            Error::NoTransactionData => ErrorView::NoTransactionData,
        }
    }
}

/// What a result stands for: the value as it is, or the error by its view.
pub open spec fn result_view<T>(r: Result<T, Error>) -> Result<T, ErrorView> {
    match r {
        Ok(value) => Ok(value),
        Err(e) => Err(e@),
    }
}

impl Error {
    /// The error in words.
    pub open spec fn spec_message(self) -> Seq<char> {
        match self {
            Error::SDKClientError(words) => "sdk error:"@ + words@,
            Error::SDKXdrError(words) => "sdk xdr error:"@ + words@,
            Error::MissingMeta => "missing transaction meta"@,
            Error::UnsupportedMeta => "unsupported transaction meta version"@,
            Error::NoTransactionData => "simulate no transaction data"@,
        }
    }

    /// The error in words.
    pub fn message(&self) -> (r: String)
        ensures
            r@ == self.spec_message(),
    {
        match self {
            Error::SDKClientError(words) => "sdk error:".to_owned().concat(words.as_str()),
            Error::SDKXdrError(words) => "sdk xdr error:".to_owned().concat(words.as_str()),
            Error::MissingMeta => "missing transaction meta".to_owned(),
            Error::UnsupportedMeta => "unsupported transaction meta version".to_owned(),
            Error::NoTransactionData => "simulate no transaction data".to_owned(),
        }
    }
}

} // verus!
