//! The gateway's error type and its OpenAI-style error body.
use vstd::prelude::*;
use crate::text::{concat, decimal, decimal_string};

verus! {

/// The `error` object of an OpenAI error response.
#[derive(Debug, Clone)]
pub struct OpenAiErrorDetail {
    pub message: String,
    pub error_type: String,
    pub param: Option<String>,
    pub code: Option<String>,
}

/// An OpenAI-style error response body: `{"error": {...}}`.
#[derive(Debug, Clone)]
pub struct OpenAiErrorResponse {
    pub error: OpenAiErrorDetail,
}

#[derive(Debug)]
pub enum GatewayError {
    Unauthorized(String),
    PayloadTooLarge { max_bytes: usize, received_bytes: usize },
    BadRequest(String),
    NotFound(String),
    AllAccountsExhausted(String),
    UpstreamError { status: u16, message: String },
    StreamAborted(String),
    Internal(String),
    ConfigError(String),
}

/// The HTTP status a gateway error is answered with.
pub open spec fn status_of(e: GatewayError) -> u16 {
    match e {
        GatewayError::Unauthorized(_) => 401,
        GatewayError::PayloadTooLarge { .. } => 413,
        GatewayError::BadRequest(_) => 400,
        GatewayError::NotFound(_) => 404,
        GatewayError::AllAccountsExhausted(_) => 503,
        GatewayError::UpstreamError { status, .. } => status,
        GatewayError::StreamAborted(_) => 502,
        GatewayError::Internal(_) => 500,
        GatewayError::ConfigError(_) => 500,
    }
}

/// The human-readable text of a gateway error.
pub open spec fn message_of(e: GatewayError) -> Seq<char> {
    match e {
        GatewayError::Unauthorized(m) => "Unauthorized: "@ + m@,
        GatewayError::PayloadTooLarge { max_bytes, received_bytes } => "Payload too large: received "@
            + decimal(received_bytes as nat) + " bytes, max allowed is "@ + decimal(max_bytes as nat),
        GatewayError::BadRequest(m) => "Bad request: "@ + m@,
        GatewayError::NotFound(m) => "Not found: "@ + m@,
        GatewayError::AllAccountsExhausted(m) => "All upstream accounts exhausted: "@ + m@,
        GatewayError::UpstreamError { status, message } => "Upstream returned HTTP "@ + decimal(
            status as nat,
        ) + ": "@ + message@,
        GatewayError::StreamAborted(m) => "Stream aborted: "@ + m@,
        GatewayError::Internal(m) => "Internal server error: "@ + m@,
        GatewayError::ConfigError(m) => "Configuration error: "@ + m@,
    }
}

/// The OpenAI `type` of a gateway error.
pub open spec fn error_type_of(e: GatewayError) -> Seq<char> {
    match e {
        GatewayError::Unauthorized(_) | GatewayError::PayloadTooLarge { .. }
        | GatewayError::BadRequest(_) | GatewayError::NotFound(_) => "invalid_request_error"@,
        GatewayError::AllAccountsExhausted(_) | GatewayError::Internal(_)
        | GatewayError::ConfigError(_) => "server_error"@,
        GatewayError::UpstreamError { .. } => "upstream_error"@,
        GatewayError::StreamAborted(_) => "stream_error"@,
    }
}

/// The OpenAI `code` of a gateway error.
pub open spec fn error_code_of(e: GatewayError) -> Seq<char> {
    match e {
        GatewayError::Unauthorized(_) => "invalid_api_key"@,
        GatewayError::PayloadTooLarge { .. } => "payload_too_large"@,
        GatewayError::BadRequest(_) => "bad_request"@,
        GatewayError::NotFound(_) => "not_found"@,
        GatewayError::AllAccountsExhausted(_) => "upstream_unavailable"@,
        GatewayError::UpstreamError { status, .. } => "http_"@ + decimal(status as nat),
        GatewayError::StreamAborted(_) => "stream_aborted"@,
        GatewayError::Internal(_) | GatewayError::ConfigError(_) => "internal_error"@,
    }
}

impl GatewayError {
    pub fn status_code(&self) -> (code: u16)
        ensures
            code == status_of(*self),
    {
        match self {
            GatewayError::Unauthorized(_) => 401,
            GatewayError::PayloadTooLarge { .. } => 413,
            GatewayError::BadRequest(_) => 400,
            GatewayError::NotFound(_) => 404,
            GatewayError::AllAccountsExhausted(_) => 503,
            GatewayError::UpstreamError { status, .. } => *status,
            GatewayError::StreamAborted(_) => 502,
            GatewayError::Internal(_) => 500,
            GatewayError::ConfigError(_) => 500,
        }
    }

    /// The text that `Display` shows for this error.
    pub fn message(&self) -> (s: String)
        ensures
            s@ == message_of(*self),
    {
        match self {
            GatewayError::Unauthorized(m) => concat("Unauthorized: ", m.as_str()),
            GatewayError::PayloadTooLarge { max_bytes, received_bytes } => {
                let a = concat("Payload too large: received ", decimal_string(*received_bytes as u64).as_str());
                let b = concat(a.as_str(), " bytes, max allowed is ");
                concat(b.as_str(), decimal_string(*max_bytes as u64).as_str())
            },
            GatewayError::BadRequest(m) => concat("Bad request: ", m.as_str()),
            GatewayError::NotFound(m) => concat("Not found: ", m.as_str()),
            GatewayError::AllAccountsExhausted(m) => concat(
                "All upstream accounts exhausted: ",
                m.as_str(),
            ),
            GatewayError::UpstreamError { status, message } => {
                let a = concat("Upstream returned HTTP ", decimal_string(*status as u64).as_str());
                let b = concat(a.as_str(), ": ");
                concat(b.as_str(), message.as_str())
            },
            GatewayError::StreamAborted(m) => concat("Stream aborted: ", m.as_str()),
            GatewayError::Internal(m) => concat("Internal server error: ", m.as_str()),
            GatewayError::ConfigError(m) => concat("Configuration error: ", m.as_str()),
        }
    }

    pub fn to_openai_response(&self) -> (r: OpenAiErrorResponse)
        ensures
            r.error.message@ == message_of(*self),
            r.error.error_type@ == error_type_of(*self),
            r.error.param is None,
            r.error.code matches Some(c) && c@ == error_code_of(*self),
    {
        let (error_type, code) = match self {
            GatewayError::Unauthorized(_) => ("invalid_request_error".to_owned(), "invalid_api_key".to_owned()),
            GatewayError::PayloadTooLarge { .. } => (
                "invalid_request_error".to_owned(),
                "payload_too_large".to_owned(),
            ),
            GatewayError::BadRequest(_) => ("invalid_request_error".to_owned(), "bad_request".to_owned()),
            GatewayError::NotFound(_) => ("invalid_request_error".to_owned(), "not_found".to_owned()),
            GatewayError::AllAccountsExhausted(_) => (
                "server_error".to_owned(),
                "upstream_unavailable".to_owned(),
            ),
            GatewayError::UpstreamError { status, .. } => (
                "upstream_error".to_owned(),
                concat("http_", decimal_string(*status as u64).as_str()),
            ),
            GatewayError::StreamAborted(_) => ("stream_error".to_owned(), "stream_aborted".to_owned()),
            GatewayError::Internal(_) | GatewayError::ConfigError(_) => (
                "server_error".to_owned(),
                "internal_error".to_owned(),
            ),
        };
        OpenAiErrorResponse {
            error: OpenAiErrorDetail {
                message: self.message(),
                error_type,
                param: None,
                code: Some(code),
            },
        }
    }
}

} // verus!
