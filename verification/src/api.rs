//! Refusals of the service.

use vstd::prelude::*;

verus! {

/// The class of a refusal, one for each response status.
#[derive(Clone, Copy, Debug, PartialEq, Eq, Structural)]
pub enum ApiErrorKind {
    BadRequest,
    Unauthorized,
    Forbidden,
    NotFound,
    RequestTimeout,
    Conflict,
    Gone,
    PayloadTooLarge,
    UnsupportedMediaType,
    TooManyRequests,
    Internal,
    Unavailable,
}

/// A refused request.
#[derive(Debug)]
pub struct ApiError {
    pub kind: ApiErrorKind,
    /// The reason, or the kind of resource that was not found.
    pub message: String,
    /// The identifier of the resource that was not found.
    pub subject: Option<String>,
}

#[verifier::ext_equal]
pub struct ApiErrorView {
    pub kind: ApiErrorKind,
    pub message: Seq<char>,
    pub subject: Option<Seq<char>>,
}

impl View for ApiError {
    type V = ApiErrorView;

    open spec fn view(&self) -> ApiErrorView {
        ApiErrorView {
            kind: self.kind,
            message: self.message@,
            subject: crate::table::view_option(self.subject),
        }
    }
}

pub open spec fn failure(kind: ApiErrorKind, message: Seq<char>) -> ApiErrorView {
    ApiErrorView { kind, message, subject: None }
}

pub open spec fn bad_request(message: Seq<char>) -> ApiErrorView {
    failure(ApiErrorKind::BadRequest, message)
}

pub open spec fn unauthorized(message: Seq<char>) -> ApiErrorView {
    failure(ApiErrorKind::Unauthorized, message)
}

pub open spec fn forbidden(message: Seq<char>) -> ApiErrorView {
    failure(ApiErrorKind::Forbidden, message)
}

pub open spec fn conflict(message: Seq<char>) -> ApiErrorView {
    failure(ApiErrorKind::Conflict, message)
}

pub open spec fn gone(message: Seq<char>) -> ApiErrorView {
    failure(ApiErrorKind::Gone, message)
}

pub open spec fn internal(message: Seq<char>) -> ApiErrorView {
    failure(ApiErrorKind::Internal, message)
}

pub open spec fn not_found(resource: Seq<char>, id: Seq<char>) -> ApiErrorView {
    ApiErrorView { kind: ApiErrorKind::NotFound, message: resource, subject: Some(id) }
}

/// What a request was answered, in terms of what the values stand for.
pub open spec fn answer<T>(r: Result<T, ApiError>) -> Result<T, ApiErrorView> {
    match r {
        Ok(x) => Ok(x),
        Err(e) => Err(e@),
    }
}

/// What a request with a modelled result was answered.
pub open spec fn answer_view<T: View>(r: Result<T, ApiError>) -> Result<T::V, ApiErrorView> {
    match r {
        Ok(x) => Ok(x@),
        Err(e) => Err(e@),
    }
}

impl ApiError {
    pub fn new(kind: ApiErrorKind, message: &str) -> (r: Self)
        ensures
            r@ == failure(kind, message@),
    {
        ApiError { kind, message: message.to_owned(), subject: None }
    }

    pub fn bad_request(message: &str) -> (r: Self)
        ensures
            r@ == bad_request(message@),
    {
        ApiError::new(ApiErrorKind::BadRequest, message)
    }

    pub fn unauthorized(message: &str) -> (r: Self)
        ensures
            r@ == unauthorized(message@),
    {
        ApiError::new(ApiErrorKind::Unauthorized, message)
    }

    pub fn forbidden(message: &str) -> (r: Self)
        ensures
            r@ == forbidden(message@),
    {
        ApiError::new(ApiErrorKind::Forbidden, message)
    }

    pub fn conflict(message: &str) -> (r: Self)
        ensures
            r@ == conflict(message@),
    {
        ApiError::new(ApiErrorKind::Conflict, message)
    }

    pub fn gone(message: &str) -> (r: Self)
        ensures
            r@ == gone(message@),
    {
        ApiError::new(ApiErrorKind::Gone, message)
    }

    pub fn internal(message: &str) -> (r: Self)
        ensures
            r@ == internal(message@),
    {
        ApiError::new(ApiErrorKind::Internal, message)
    }

    pub fn not_found(resource: &str, id: &str) -> (r: Self)
        ensures
            r@ == not_found(resource@, id@),
    {
        ApiError {
            kind: ApiErrorKind::NotFound,
            message: resource.to_owned(),
            subject: Some(id.to_owned()),
        }
    }
}

/// Every refusal is of the class that it is called by and gives its reason; only one for something
/// that was not found names it.
pub proof fn law_refusals_have_their_class(message: Seq<char>, id: Seq<char>)
    ensures
        bad_request(message).kind == ApiErrorKind::BadRequest,
        unauthorized(message).kind == ApiErrorKind::Unauthorized,
        forbidden(message).kind == ApiErrorKind::Forbidden,
        conflict(message).kind == ApiErrorKind::Conflict,
        gone(message).kind == ApiErrorKind::Gone,
        internal(message).kind == ApiErrorKind::Internal,
        not_found(message, id).kind == ApiErrorKind::NotFound,
        bad_request(message).message == message && bad_request(message).subject is None,
        conflict(message).message == message && conflict(message).subject is None,
        not_found(message, id).message == message && not_found(message, id).subject == Some(id),
{
}

} // verus!
