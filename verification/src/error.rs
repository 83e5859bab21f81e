//! The kinds of failure a request can end in.
use vstd::prelude::*;
use vstd::string::*;

verus! {

/// Error for describing why a request failed
#[derive(Debug, PartialEq, Eq)]
pub enum ApiError {
    /// There has been an unexpected fatal error that prevented execution of
    /// the requested action; the text names the step that failed
    InternalServerError(String),
    /// The resource requested does not exist
    NotFound(&'static str),
    /// The requested byte range is malformed
    InvalidRange,
    /// The requested byte range starts beyond the end of the log
    RangeNotSatisfiable,
}

/// What an `ApiError` holds, as plain values.
pub enum ApiErrorView {
    InternalServerError(Seq<char>),
    NotFound(Seq<char>),
    InvalidRange,
    RangeNotSatisfiable,
}

impl View for ApiError {
    type V = ApiErrorView;

    open spec fn view(&self) -> ApiErrorView {
        match self {
            ApiError::InternalServerError(cause) => ApiErrorView::InternalServerError(cause@),
            ApiError::NotFound(what) => ApiErrorView::NotFound(what@),
            ApiError::InvalidRange => ApiErrorView::InvalidRange,
            ApiError::RangeNotSatisfiable => ApiErrorView::RangeNotSatisfiable,
        }
    }
}

impl ApiErrorView {
    /// The HTTP status code that stands for this error.
    pub open spec fn status_code(self) -> u16 {
        match self {
            ApiErrorView::InternalServerError(_) => 500,
            ApiErrorView::NotFound(_) => 404,
            ApiErrorView::InvalidRange => 400,
            ApiErrorView::RangeNotSatisfiable => 416,
        }
    }

    /// The text shown for this error.
    pub open spec fn message(self) -> Seq<char> {
        match self {
            ApiErrorView::InternalServerError(cause) => "Couldn't handle request: "@ + cause,
            ApiErrorView::NotFound(what) => "Resource not found: "@ + what,
            ApiErrorView::InvalidRange => "Invalid range"@,
            ApiErrorView::RangeNotSatisfiable => "Range not satisfiable"@,
        }
    }
}

impl ApiError {
    /// An internal error that names the step that failed.
    pub fn internal(context: &str) -> (error: ApiError)
        ensures
            error@ == ApiErrorView::InternalServerError(context@),
    {
        ApiError::InternalServerError(String::from_str(context))
    }

    /// Maps the error to the status code a transport reports for it.
    pub fn status_code(&self) -> (code: u16)
        ensures
            code == self@.status_code(),
    {
        match self {
            ApiError::InternalServerError(_) => 500,
            ApiError::NotFound(_) => 404,
            ApiError::InvalidRange => 400,
            ApiError::RangeNotSatisfiable => 416,
        }
    }

    /// Renders the error as text.
    pub fn message(&self) -> (text: String)
        ensures
            text@ == self@.message(),
    {
        match self {
            ApiError::InternalServerError(cause) => {
                String::from_str("Couldn't handle request: ").concat(cause.as_str())
            },
            ApiError::NotFound(what) => String::from_str("Resource not found: ").concat(what),
            ApiError::InvalidRange => String::from_str("Invalid range"),
            ApiError::RangeNotSatisfiable => String::from_str("Range not satisfiable"),
        }
    }
}

} // verus!
