//! Problem-details errors returned by the JMAP request layer.

use vstd::prelude::*;
use vstd::string::StringExecFns;

verus! {

/// Which request limit was exceeded.
#[derive(Debug, Clone, Copy, PartialEq, Eq, Structural)]
pub enum RequestLimitError {
    Size,
    CallsIn,
    Concurrent,
}

/// The problem type of a request error.
#[derive(Debug, Clone, Copy, PartialEq, Eq, Structural)]
pub enum RequestErrorType {
    UnknownCapability,
    NotJSON,
    NotRequest,
    Limit,
    Other,
}

/// A request-level error, serialised by callers as a problem-details object.
#[derive(Debug)]
pub struct RequestError {
    pub p_type: RequestErrorType,
    pub status: u16,
    pub title: Option<String>,
    pub detail: String,
    pub limit: Option<RequestLimitError>,
}

/// The title of a request error, as characters.
pub open spec fn title_view(e: &RequestError) -> Option<Seq<char>> {
    match e.title {
        Some(t) => Some(t@),
        None => None,
    }
}

/// The fixed detail text of each request limit.
pub open spec fn limit_detail(l: RequestLimitError) -> Seq<char> {
    match l {
        RequestLimitError::Size => "The request is larger than the server is willing to process."@,
        RequestLimitError::CallsIn => "The request exceeds the maximum number of calls in a single request."@,
        RequestLimitError::Concurrent => "The request exceeds the maximum number of concurrent requests."@,
    }
}

/// The detail text naming an unsupported capability.
pub open spec fn unknown_capability_detail(capability: Seq<char>) -> Seq<char> {
    "The Request object used capability '"@ + capability + "', which is not supportedby this server."@
}

/// A generic problem with its own status, title and detail.
pub open spec fn is_blank(e: &RequestError, status: u16, title: Seq<char>, detail: Seq<char>) -> bool {
    &&& e.p_type == RequestErrorType::Other
    &&& e.status == status
    &&& title_view(e) == Some(title)
    &&& e.detail@ == detail
    &&& e.limit.is_none()
}

impl RequestError {
    pub fn blank(status: u16, title: &str, detail: &str) -> (r: Self)
        ensures
            is_blank(&r, status, title@, detail@),
    {
        RequestError {
            p_type: RequestErrorType::Other,
            status,
            title: Some(String::from_str(title)),
            detail: String::from_str(detail),
            limit: None,
        }
    }

    pub fn internal_server_error() -> (r: Self)
        ensures
            is_blank(
                &r,
                500,
                "Internal Server Error"@,
                "There was a problem while processing your request. Please contact the system administrator."@,
            ),
    {
        RequestError::blank(
            500,
            "Internal Server Error",
            "There was a problem while processing your request. Please contact the system administrator.",
        )
    }

    pub fn unavailable() -> (r: Self)
        ensures
            is_blank(
                &r,
                503,
                "Temporarily Unavailable"@,
                "There was a temporary problem while processing your request. Please try again in a few moments."@,
            ),
    {
        RequestError::blank(
            503,
            "Temporarily Unavailable",
            "There was a temporary problem while processing your request. Please try again in a few moments.",
        )
    }

    pub fn invalid_parameters() -> (r: Self)
        ensures
            is_blank(&r, 400, "Invalid Parameters"@, "One or multiple parameters could not be parsed."@),
    {
        RequestError::blank(400, "Invalid Parameters", "One or multiple parameters could not be parsed.")
    }

    pub fn forbidden() -> (r: Self)
        ensures
            is_blank(
                &r,
                403,
                "Forbidden"@,
                "You do not have enough permissions to access this resource."@,
            ),
    {
        RequestError::blank(403, "Forbidden", "You do not have enough permissions to access this resource.")
    }

    pub fn too_many_requests() -> (r: Self)
        ensures
            is_blank(
                &r,
                429,
                "Too Many Requests"@,
                "Your request has been rate limited. Please try again in a few seconds."@,
            ),
    {
        RequestError::blank(
            429,
            "Too Many Requests",
            "Your request has been rate limited. Please try again in a few seconds.",
        )
    }

    pub fn too_many_auth_attempts() -> (r: Self)
        ensures
            is_blank(
                &r,
                429,
                "Too Many Authentication Attempts"@,
                "Your request has been rate limited. Please try again in a few minutes."@,
            ),
    {
        RequestError::blank(
            429,
            "Too Many Authentication Attempts",
            "Your request has been rate limited. Please try again in a few minutes.",
        )
    }

    pub fn limit(limit_type: RequestLimitError) -> (r: Self)
        ensures
            r.p_type == RequestErrorType::Limit,
            r.status == 400,
            r.title.is_none(),
            r.detail@ == limit_detail(limit_type),
            r.limit == Some(limit_type),
    {
        let detail = match limit_type {
            RequestLimitError::Size => "The request is larger than the server is willing to process.",
            RequestLimitError::CallsIn => "The request exceeds the maximum number of calls in a single request.",
            RequestLimitError::Concurrent => "The request exceeds the maximum number of concurrent requests.",
        };
        RequestError {
            p_type: RequestErrorType::Limit,
            status: 400,
            title: None,
            detail: String::from_str(detail),
            limit: Some(limit_type),
        }
    }

    pub fn not_found() -> (r: Self)
        ensures
            is_blank(
                &r,
                404,
                "Not Found"@,
                "The requested resource does not exist on this server."@,
            ),
    {
        RequestError::blank(404, "Not Found", "The requested resource does not exist on this server.")
    }

    pub fn unauthorized() -> (r: Self)
        ensures
            is_blank(&r, 401, "Unauthorized"@, "You have to authenticate first."@),
    {
        RequestError::blank(401, "Unauthorized", "You have to authenticate first.")
    }

    pub fn unknown_capability(capability: &str) -> (r: RequestError)
        ensures
            r.p_type == RequestErrorType::UnknownCapability,
            r.status == 400,
            r.title.is_none(),
            r.detail@ == unknown_capability_detail(capability@),
            r.limit.is_none(),
    {
        let mut detail = String::from_str("The Request object used capability '");
        detail.append(capability);
        detail.append("', which is not supportedby this server.");
        RequestError {
            p_type: RequestErrorType::UnknownCapability,
            limit: None,
            title: None,
            status: 400,
            detail,
        }
    }

    pub fn not_json(detail: &str) -> (r: RequestError)
        ensures
            r.p_type == RequestErrorType::NotJSON,
            r.status == 400,
            r.title.is_none(),
            r.detail@ == "Failed to parse JSON: "@ + detail@,
            r.limit.is_none(),
    {
        let mut text = String::from_str("Failed to parse JSON: ");
        text.append(detail);
        RequestError {
            p_type: RequestErrorType::NotJSON,
            limit: None,
            title: None,
            status: 400,
            detail: text,
        }
    }

    pub fn not_request(detail: &str) -> (r: RequestError)
        ensures
            r.p_type == RequestErrorType::NotRequest,
            r.status == 400,
            r.title.is_none(),
            r.detail@ == detail@,
            r.limit.is_none(),
    {
        RequestError {
            p_type: RequestErrorType::NotRequest,
            limit: None,
            title: None,
            status: 400,
            detail: String::from_str(detail),
        }
    }

    /// The text shown to a user: the detail.
    pub fn to_string(&self) -> (r: String)
        ensures
            r@ == self.detail@,
    {
        self.detail.clone()
    }
}

} // verus!
