use vstd::prelude::*;

verus! {

broadcast use vstd::string::group_string_axioms;

/// Errors of the document service. Errors raised by outside components (database, JSON,
/// tokens, HTTP, file system, field validation) are carried as their messages.
#[derive(Debug, Clone)]
pub enum AppError {
    Database(String),
    Authentication(String),
    Authorization(String),
    Validation(String),
    NotFound(String),
    Conflict(String),
    Internal(String),
    Json(String),
    Jwt(String),
    Http(String),
    Io(String),
    ValidationErrors(String),
}

/// The HTTP status that answers an error.
pub open spec fn status_of(e: AppError) -> u16 {
    match e {
        AppError::Database(_) => 500,
        AppError::Authentication(_) => 401,
        AppError::Authorization(_) => 403,
        AppError::Validation(_) => 400,
        AppError::NotFound(_) => 404,
        AppError::Conflict(_) => 409,
        AppError::Internal(_) => 500,
        AppError::Json(_) => 400,
        AppError::Jwt(_) => 401,
        AppError::Http(_) => 502,
        AppError::Io(_) => 500,
        AppError::ValidationErrors(_) => 400,
    }
}

/// The message shown to the client: the error's own message for client errors, a fixed
/// text for the others.
pub open spec fn public_message_of(e: AppError) -> Seq<char> {
    match e {
        AppError::Database(_) => "Database error occurred"@,
        AppError::Authentication(m) => m@,
        AppError::Authorization(m) => m@,
        AppError::Validation(m) => m@,
        AppError::NotFound(m) => m@,
        AppError::Conflict(m) => m@,
        AppError::Internal(_) => "Internal server error"@,
        AppError::Json(_) => "Invalid JSON"@,
        AppError::Jwt(_) => "Invalid token"@,
        AppError::Http(_) => "External service error"@,
        AppError::Io(_) => "File system error"@,
        AppError::ValidationErrors(_) => "Validation failed"@,
    }
}

/// The error type named in a response body.
pub open spec fn error_type_of(e: AppError) -> Seq<char> {
    match e {
        AppError::Database(_) => "database"@,
        AppError::Authentication(_) => "authentication"@,
        AppError::Authorization(_) => "authorization"@,
        AppError::Validation(_) => "validation"@,
        AppError::NotFound(_) => "not_found"@,
        AppError::Conflict(_) => "conflict"@,
        AppError::Internal(_) => "internal"@,
        AppError::Json(_) => "json"@,
        AppError::Jwt(_) => "jwt"@,
        AppError::Http(_) => "http"@,
        AppError::Io(_) => "io"@,
        AppError::ValidationErrors(_) => "validation_errors"@,
    }
}

/// The details of a response body: the failed field checks of a validation failure; no
/// details for other errors, whose inner messages stay on the server.
pub open spec fn error_details_of(e: AppError) -> Option<Seq<char>> {
    match e {
        AppError::ValidationErrors(m) => Some(m@),
        _ => None,
    }
}

/// The body of an error response: the error type, the message shown to the client and any
/// details.
#[derive(Debug, Clone)]
pub struct ErrorBody {
    pub error: String,
    pub message: String,
    pub details: Option<String>,
}

impl AppError {
    /// The HTTP status code of the response for this error.
    pub fn status_code(&self) -> (r: u16)
        ensures
            r == status_of(*self),
    {
        match self {
            AppError::Database(_) => 500,
            AppError::Authentication(_) => 401,
            AppError::Authorization(_) => 403,
            AppError::Validation(_) => 400,
            AppError::NotFound(_) => 404,
            AppError::Conflict(_) => 409,
            AppError::Internal(_) => 500,
            AppError::Json(_) => 400,
            AppError::Jwt(_) => 401,
            AppError::Http(_) => 502,
            AppError::Io(_) => 500,
            AppError::ValidationErrors(_) => 400,
        }
    }

    /// The error type named in the response body for this error.
    pub fn error_type(&self) -> (r: &'static str)
        ensures
            r@ == error_type_of(*self),
    {
        match self {
            AppError::Database(_) => "database",
            AppError::Authentication(_) => "authentication",
            AppError::Authorization(_) => "authorization",
            AppError::Validation(_) => "validation",
            AppError::NotFound(_) => "not_found",
            AppError::Conflict(_) => "conflict",
            AppError::Internal(_) => "internal",
            AppError::Json(_) => "json",
            AppError::Jwt(_) => "jwt",
            AppError::Http(_) => "http",
            AppError::Io(_) => "io",
            AppError::ValidationErrors(_) => "validation_errors",
        }
    }

    /// The body of the response for this error.
    pub fn response_body(&self) -> (r: ErrorBody)
        ensures
            r.error@ == error_type_of(*self),
            r.message@ == public_message_of(*self),
            match r.details {
                Some(d) => error_details_of(*self) == Some(d@),
                None => error_details_of(*self) is None,
            },
    {
        let details = match self {
            AppError::ValidationErrors(m) => Some(m.clone()),
            _ => None,
        };
        ErrorBody { error: self.error_type().to_owned(), message: self.public_message(), details }
    }

    /// The message of the response body for this error.
    pub fn public_message(&self) -> (r: String)
        ensures
            r@ == public_message_of(*self),
    {
        match self {
            AppError::Database(_) => "Database error occurred".to_owned(),
            AppError::Authentication(m) => m.clone(),
            AppError::Authorization(m) => m.clone(),
            AppError::Validation(m) => m.clone(),
            AppError::NotFound(m) => m.clone(),
            AppError::Conflict(m) => m.clone(),
            AppError::Internal(_) => "Internal server error".to_owned(),
            AppError::Json(_) => "Invalid JSON".to_owned(),
            AppError::Jwt(_) => "Invalid token".to_owned(),
            AppError::Http(_) => "External service error".to_owned(),
            AppError::Io(_) => "File system error".to_owned(),
            AppError::ValidationErrors(_) => "Validation failed".to_owned(),
        }
    }

    /// A database error with the given message (reported as an internal error).
    pub fn database_error(msg: String) -> (r: Self)
        ensures
            r == AppError::Internal(msg),
    {
        AppError::Internal(msg)
    }

    #[allow(non_snake_case)]
    pub fn BadRequest(msg: String) -> (r: Self)
        ensures
            r == AppError::Validation(msg),
    {
        AppError::Validation(msg)
    }

    #[allow(non_snake_case)]
    pub fn DatabaseError(msg: String) -> (r: Self)
        ensures
            r == AppError::Internal(msg),
    {
        Self::database_error(msg)
    }

    #[allow(non_snake_case)]
    pub fn InternalServerError(msg: String) -> (r: Self)
        ensures
            r == AppError::Internal(msg),
    {
        AppError::Internal(msg)
    }

    pub fn bad_request(msg: String) -> (r: Self)
        ensures
            r == AppError::Validation(msg),
    {
        AppError::Validation(msg)
    }

    pub fn unauthorized(msg: String) -> (r: Self)
        ensures
            r == AppError::Authentication(msg),
    {
        AppError::Authentication(msg)
    }

    pub fn forbidden(msg: String) -> (r: Self)
        ensures
            r == AppError::Authorization(msg),
    {
        AppError::Authorization(msg)
    }

    pub fn not_found(msg: String) -> (r: Self)
        ensures
            r == AppError::NotFound(msg),
    {
        AppError::NotFound(msg)
    }

    pub fn conflict(msg: String) -> (r: Self)
        ensures
            r == AppError::Conflict(msg),
    {
        AppError::Conflict(msg)
    }

    pub fn internal_server_error(msg: String) -> (r: Self)
        ensures
            r == AppError::Internal(msg),
    {
        AppError::Internal(msg)
    }
}

} // verus!
