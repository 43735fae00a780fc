//! The library's error type and how each error is answered over HTTP.

use vstd::prelude::*;
use crate::text::push_str;

verus! {

/// Everything that can go wrong while serving the archive. Errors raised by
/// the database, the image codecs, the file system or the JSON parser carry
/// that component's own message.
#[derive(Debug)]
pub enum AppError {
    Database(String),
    Pool(String),
    Image(String),
    Inference(String),
    NotFound(String),
    Validation(String),
    Io(String),
    Json(String),
    Internal(String),
}

/// The human-readable text of an error.
pub open spec fn error_text(e: AppError) -> Seq<char> {
    match e {
        AppError::Database(m) => "database error: "@ + m@,
        AppError::Pool(m) => "pool error: "@ + m@,
        AppError::Image(m) => "image processing error: "@ + m@,
        AppError::Inference(m) => "inference sidecar error: "@ + m@,
        AppError::NotFound(m) => "not found: "@ + m@,
        AppError::Validation(m) => "validation error: "@ + m@,
        AppError::Io(m) => "io error: "@ + m@,
        AppError::Json(m) => "json error: "@ + m@,
        AppError::Internal(m) => m@,
    }
}

/// HTTP status of the answer to an error: 404 for a missing resource, 400
/// for a refused request, 500 for everything else.
pub open spec fn error_status(e: AppError) -> u16 {
    match e {
        AppError::NotFound(_) => 404,
        AppError::Validation(_) => 400,
        _ => 500,
    }
}

/// Message in the body of the answer to an error: the error's own text for
/// client errors; internal details are never shown.
pub open spec fn error_body(e: AppError) -> Seq<char> {
    match e {
        AppError::NotFound(_) => error_text(e),
        AppError::Validation(_) => error_text(e),
        _ => "internal server error"@,
    }
}

fn prefixed(prefix: &str, m: &String) -> (r: String)
    ensures
        r@ == prefix@ + m@,
{
    let mut r = prefix.to_string();
    push_str(&mut r, m.as_str());
    r
}

impl AppError {
    /// The error's text (its `Display`).
    pub fn message(&self) -> (r: String)
        ensures
            r@ == error_text(*self),
    {
        match self {
            AppError::Database(m) => prefixed("database error: ", m),
            AppError::Pool(m) => prefixed("pool error: ", m),
            AppError::Image(m) => prefixed("image processing error: ", m),
            AppError::Inference(m) => prefixed("inference sidecar error: ", m),
            AppError::NotFound(m) => prefixed("not found: ", m),
            AppError::Validation(m) => prefixed("validation error: ", m),
            AppError::Io(m) => prefixed("io error: ", m),
            AppError::Json(m) => prefixed("json error: ", m),
            AppError::Internal(m) => m.clone(),
        }
    }

    /// HTTP status code this error is answered with.
    pub fn status_code(&self) -> (r: u16)
        ensures
            r == error_status(*self),
    {
        match self {
            AppError::NotFound(_) => 404,
            AppError::Validation(_) => 400,
            _ => 500,
        }
    }

    /// The `error` message of the JSON body this error is answered with.
    pub fn response_message(&self) -> (r: String)
        ensures
            r@ == error_body(*self),
    {
        match self {
            AppError::NotFound(_) => self.message(),
            AppError::Validation(_) => self.message(),
            _ => "internal server error".to_string(),
        }
    }
}


/// Only a missing resource is answered 404 and only a refused request 400;
/// every other error is answered 500 with a generic message, so internal
/// details never reach the client.
pub proof fn lemma_internal_errors_hidden(e: AppError)
    ensures
        error_status(e) == 404 <==> e is NotFound,
        error_status(e) == 400 <==> e is Validation,
        error_status(e) == 500 <==> !(e is NotFound || e is Validation),
        error_status(e) == 500 ==> error_body(e) == "internal server error"@,
        error_status(e) != 500 ==> error_body(e) == error_text(e),
{
}

} // verus!
