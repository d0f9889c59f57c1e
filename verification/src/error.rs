//! All errors the engine can produce, with their API code, HTTP status and
//! user-facing message.

use vstd::prelude::*;

use crate::text::string_of;

verus! {

/// All errors the engine can produce.
#[derive(Debug, Clone)]
pub enum EngineError {
    ValidationFailed(String),
    FieldNotAllowed(String),
    PreaggregateToLarge(String),
    ResultTooLarge(String),
    QueryTimeout,
    Cancelled,
    ClickHouseUnavailable(String),
    ModelNotFound(String),
    Internal(String),
}

/// The model of an engine error: its kind and the text it carries.
pub enum ErrorView {
    ValidationFailed(Seq<char>),
    FieldNotAllowed(Seq<char>),
    PreaggregateToLarge(Seq<char>),
    ResultTooLarge(Seq<char>),
    QueryTimeout,
    Cancelled,
    ClickHouseUnavailable(Seq<char>),
    ModelNotFound(Seq<char>),
    Internal(Seq<char>),
}

impl View for EngineError {
    type V = ErrorView;

    open spec fn view(&self) -> ErrorView {
        match self {
            EngineError::ValidationFailed(m) => ErrorView::ValidationFailed(m@),
            EngineError::FieldNotAllowed(m) => ErrorView::FieldNotAllowed(m@),
            EngineError::PreaggregateToLarge(m) => ErrorView::PreaggregateToLarge(m@),
            EngineError::ResultTooLarge(m) => ErrorView::ResultTooLarge(m@),
            EngineError::QueryTimeout => ErrorView::QueryTimeout,
            EngineError::Cancelled => ErrorView::Cancelled,
            EngineError::ClickHouseUnavailable(m) => ErrorView::ClickHouseUnavailable(m@),
            EngineError::ModelNotFound(m) => ErrorView::ModelNotFound(m@),
            EngineError::Internal(m) => ErrorView::Internal(m@),
        }
    }
}

/// The API error code of `e`.
pub open spec fn error_code(e: ErrorView) -> Seq<char> {
    match e {
        ErrorView::ValidationFailed(_) => "VALIDATION_FAILED"@,
        ErrorView::FieldNotAllowed(_) => "FIELD_NOT_ALLOWED"@,
        ErrorView::PreaggregateToLarge(_) => "PREAGGREGATE_TOO_LARGE"@,
        ErrorView::ResultTooLarge(_) => "RESULT_TOO_LARGE"@,
        ErrorView::QueryTimeout => "QUERY_TIMEOUT"@,
        ErrorView::Cancelled => "CANCELLED"@,
        ErrorView::ClickHouseUnavailable(_) => "CLICKHOUSE_UNAVAILABLE"@,
        ErrorView::ModelNotFound(_) => "MODEL_NOT_FOUND"@,
        ErrorView::Internal(_) => "INTERNAL"@,
    }
}

/// The HTTP status that answers `e`.
pub open spec fn error_status(e: ErrorView) -> u16 {
    match e {
        ErrorView::ValidationFailed(_) => 400,
        ErrorView::FieldNotAllowed(_) => 400,
        ErrorView::PreaggregateToLarge(_) => 400,
        ErrorView::ResultTooLarge(_) => 400,
        ErrorView::QueryTimeout => 504,
        ErrorView::Cancelled => 200,
        ErrorView::ClickHouseUnavailable(_) => 503,
        ErrorView::ModelNotFound(_) => 404,
        ErrorView::Internal(_) => 500,
    }
}

/// The message shown to the user for `e`.
pub open spec fn error_message_user(e: ErrorView) -> Seq<char> {
    match e {
        ErrorView::ValidationFailed(m) => m,
        ErrorView::FieldNotAllowed(f) => "Field '"@ + f + "' is not available in this model."@,
        ErrorView::PreaggregateToLarge(m) => "Result would be too large. Narrow filters or remove a dimension. ("@
            + m + ")"@,
        ErrorView::ResultTooLarge(m) => "Result exceeds Excel cell limit. Narrow filters or remove a dimension. ("@
            + m + ")"@,
        ErrorView::QueryTimeout => "Query timed out. Try narrowing your date range."@,
        ErrorView::Cancelled => "Query was cancelled."@,
        ErrorView::ClickHouseUnavailable(_) => "ClickHouse is temporarily unavailable. Please retry."@,
        ErrorView::ModelNotFound(id) => "Model '"@ + id + "' not found."@,
        ErrorView::Internal(_) => "An internal error occurred. Please contact support."@,
    }
}

/// The diagnostic text of `e` (the text its `Display` form would print).
pub open spec fn error_message(e: ErrorView) -> Seq<char> {
    match e {
        ErrorView::ValidationFailed(m) => "validation failed: "@ + m,
        ErrorView::FieldNotAllowed(m) => "field not allowed: "@ + m,
        ErrorView::PreaggregateToLarge(m) => "pre-aggregate would be too large: "@ + m,
        ErrorView::ResultTooLarge(m) => "result too large: "@ + m,
        ErrorView::QueryTimeout => "query timed out"@,
        ErrorView::Cancelled => "query was cancelled"@,
        ErrorView::ClickHouseUnavailable(m) => "ClickHouse unavailable: "@ + m,
        ErrorView::ModelNotFound(m) => "model not found: "@ + m,
        ErrorView::Internal(m) => "internal error: "@ + m,
    }
}

/// `prefix`, then `middle`, then `suffix`.
fn wrap_text(prefix: &str, middle: &String, suffix: &str) -> (r: String)
    ensures
        r@ == prefix@ + middle@ + suffix@,
{
    let mut r = string_of(prefix);
    r.append(middle.as_str());
    r.append(suffix);
    r
}

/// `prefix`, then `rest`.
fn prefixed(prefix: &str, rest: &String) -> (r: String)
    ensures
        r@ == prefix@ + rest@,
{
    let mut r = string_of(prefix);
    r.append(rest.as_str());
    r
}

impl EngineError {
    /// The API error code.
    pub fn code(&self) -> (r: &'static str)
        ensures
            r@ == error_code(self@),
    {
        match self {
            EngineError::ValidationFailed(_) => "VALIDATION_FAILED",
            EngineError::FieldNotAllowed(_) => "FIELD_NOT_ALLOWED",
            EngineError::PreaggregateToLarge(_) => "PREAGGREGATE_TOO_LARGE",
            EngineError::ResultTooLarge(_) => "RESULT_TOO_LARGE",
            EngineError::QueryTimeout => "QUERY_TIMEOUT",
            EngineError::Cancelled => "CANCELLED",
            EngineError::ClickHouseUnavailable(_) => "CLICKHOUSE_UNAVAILABLE",
            EngineError::ModelNotFound(_) => "MODEL_NOT_FOUND",
            EngineError::Internal(_) => "INTERNAL",
        }
    }

    /// Whether retrying the same request may succeed.
    pub fn retriable(&self) -> (r: bool)
        ensures
            r == (self@ is ClickHouseUnavailable),
    {
        match self {
            EngineError::ClickHouseUnavailable(_) => true,
            _ => false,
        }
    }

    /// The HTTP status code that answers the error.
    pub fn status_code(&self) -> (r: u16)
        ensures
            r == error_status(self@),
    {
        match self {
            EngineError::ValidationFailed(_)
            | EngineError::FieldNotAllowed(_)
            | EngineError::PreaggregateToLarge(_)
            | EngineError::ResultTooLarge(_) => 400,
            EngineError::QueryTimeout => 504,
            EngineError::Cancelled => 200,
            EngineError::ClickHouseUnavailable(_) => 503,
            EngineError::ModelNotFound(_) => 404,
            EngineError::Internal(_) => 500,
        }
    }

    /// The message shown to the user.
    pub fn message_user(&self) -> (r: String)
        ensures
            r@ == error_message_user(self@),
    {
        match self {
            EngineError::ValidationFailed(m) => m.clone(),
            EngineError::FieldNotAllowed(f) => wrap_text(
                "Field '",
                f,
                "' is not available in this model.",
            ),
            EngineError::PreaggregateToLarge(m) => wrap_text(
                "Result would be too large. Narrow filters or remove a dimension. (",
                m,
                ")",
            ),
            EngineError::ResultTooLarge(m) => wrap_text(
                "Result exceeds Excel cell limit. Narrow filters or remove a dimension. (",
                m,
                ")",
            ),
            EngineError::QueryTimeout => string_of("Query timed out. Try narrowing your date range."),
            EngineError::Cancelled => string_of("Query was cancelled."),
            EngineError::ClickHouseUnavailable(_) => string_of(
                "ClickHouse is temporarily unavailable. Please retry.",
            ),
            EngineError::ModelNotFound(id) => wrap_text("Model '", id, "' not found."),
            EngineError::Internal(_) => string_of(
                "An internal error occurred. Please contact support.",
            ),
        }
    }

    /// The diagnostic text of the error.
    pub fn message(&self) -> (r: String)
        ensures
            r@ == error_message(self@),
    {
        match self {
            EngineError::ValidationFailed(m) => prefixed("validation failed: ", m),
            EngineError::FieldNotAllowed(m) => prefixed("field not allowed: ", m),
            EngineError::PreaggregateToLarge(m) => prefixed("pre-aggregate would be too large: ", m),
            EngineError::ResultTooLarge(m) => prefixed("result too large: ", m),
            EngineError::QueryTimeout => string_of("query timed out"),
            EngineError::Cancelled => string_of("query was cancelled"),
            EngineError::ClickHouseUnavailable(m) => prefixed("ClickHouse unavailable: ", m),
            EngineError::ModelNotFound(m) => prefixed("model not found: ", m),
            EngineError::Internal(m) => prefixed("internal error: ", m),
        }
    }
}

/// The position of an error's kind among the engine's errors.
pub open spec fn error_kind(e: ErrorView) -> int {
    match e {
        ErrorView::ValidationFailed(_) => 0,
        ErrorView::FieldNotAllowed(_) => 1,
        ErrorView::PreaggregateToLarge(_) => 2,
        ErrorView::ResultTooLarge(_) => 3,
        ErrorView::QueryTimeout => 4,
        ErrorView::Cancelled => 5,
        ErrorView::ClickHouseUnavailable(_) => 6,
        ErrorView::ModelNotFound(_) => 7,
        ErrorView::Internal(_) => 8,
    }
}

/// The API code tells the kind of an error: errors of different kinds have
/// different codes. The only retriable error, an unavailable ClickHouse, is the
/// only one answered with `503 Service Unavailable`.
pub proof fn lemma_codes_tell_kinds(a: ErrorView, b: ErrorView)
    ensures
        error_kind(a) != error_kind(b) ==> error_code(a) != error_code(b),
        (a is ClickHouseUnavailable) <==> error_status(a) == 503,
{
    reveal_strlit("VALIDATION_FAILED");
    reveal_strlit("FIELD_NOT_ALLOWED");
    reveal_strlit("PREAGGREGATE_TOO_LARGE");
    reveal_strlit("RESULT_TOO_LARGE");
    reveal_strlit("QUERY_TIMEOUT");
    reveal_strlit("CANCELLED");
    reveal_strlit("CLICKHOUSE_UNAVAILABLE");
    reveal_strlit("MODEL_NOT_FOUND");
    reveal_strlit("INTERNAL");
    let (x, y) = (error_code(a), error_code(b));
    if error_kind(a) != error_kind(b) {
        assert(x.len() != y.len() || x[0] != y[0]);
    }
}

} // verus!
