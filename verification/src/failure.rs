//! Failed requests to the queue service.

use vstd::prelude::*;
use vstd::string::*;
use crate::json::{lemma_member_at, member, text_or_null, Json, JsonView};
use crate::text::{
    a_text_stands_between_others, contains_text, decimal, decimal_u64, has_text, joined,
};

verus! {

broadcast use vstd::string::group_string_axioms;

/// Why a request failed.
///
/// `message` is what the service said; `debug` is the client's own account of the failure.
#[derive(Debug)]
pub enum SdkFailure {
    /// The service answered with an error.
    ServiceError { message: String, status_code: u16, request_id: Option<String> },
    /// The service took too long.
    TimeoutError { debug: String },
    /// The request did not reach the service.
    DispatchFailure {
        debug: String,
        is_io: bool,
        is_timeout: bool,
        is_user: bool,
        connector_error: Option<String>,
    },
    /// The answer could not be read.
    ResponseError { status_code: u16, debug: String },
    /// The request could not be made.
    ConstructionFailure { debug: String },
    /// Any other failure.
    Unknown { debug: String },
}

/// One line that says what went wrong.
pub open spec fn failure_message(e: SdkFailure) -> Seq<char> {
    match e {
        SdkFailure::ServiceError { message, .. } => "SQS ServiceError: "@ + message@,
        SdkFailure::TimeoutError { debug } => "SQS TimeoutError: "@ + debug@,
        SdkFailure::DispatchFailure { debug, .. } => "SQS DispatchFailure: "@ + debug@,
        SdkFailure::ResponseError { status_code, .. } => "SQS ResponseError: status="@ + decimal(
            status_code as nat,
        ),
        SdkFailure::ConstructionFailure { debug } => "SQS ConstructionFailure: "@ + debug@,
        SdkFailure::Unknown { debug } => "SQS Error: "@ + debug@,
    }
}

/// The members of the JSON account of a failure.
pub open spec fn failure_details(e: SdkFailure) -> Seq<(Seq<char>, JsonView)> {
    match e {
        SdkFailure::ServiceError { message, status_code, request_id } => seq![
            ("error_type"@, JsonView::Text("ServiceError"@)),
            ("message"@, JsonView::Text(message@)),
            ("status_code"@, JsonView::Unsigned(status_code as u64)),
            ("request_id"@, text_or_null(request_id.deep_view())),
        ],
        SdkFailure::TimeoutError { debug } => seq![
            ("error_type"@, JsonView::Text("TimeoutError"@)),
            ("message"@, JsonView::Text(debug@)),
        ],
        SdkFailure::DispatchFailure { debug, is_io, is_timeout, is_user, connector_error } => seq![
            ("error_type"@, JsonView::Text("DispatchFailure"@)),
            ("message"@, JsonView::Text(debug@)),
            ("is_io"@, JsonView::Bool(is_io)),
            ("is_timeout"@, JsonView::Bool(is_timeout)),
            ("is_user"@, JsonView::Bool(is_user)),
            ("connector_error"@, text_or_null(connector_error.deep_view())),
        ],
        SdkFailure::ResponseError { status_code, debug } => seq![
            ("error_type"@, JsonView::Text("ResponseError"@)),
            ("status_code"@, JsonView::Unsigned(status_code as u64)),
            ("debug"@, JsonView::Text(debug@)),
        ],
        SdkFailure::ConstructionFailure { debug } => seq![
            ("error_type"@, JsonView::Text("ConstructionFailure"@)),
            ("message"@, JsonView::Text(debug@)),
        ],
        SdkFailure::Unknown { debug } => seq![
            ("error_type"@, JsonView::Text("Unknown"@)),
            ("debug"@, JsonView::Text(debug@)),
        ],
    }
}

/// Formats a failure as a message and as JSON details.
pub fn format_sdk_error(e: &SdkFailure) -> (r: (String, Json))
    ensures
        r.0@ == failure_message(*e),
        r.1@ == JsonView::Object(failure_details(*e)),
{
    match e {
        SdkFailure::ServiceError { message, status_code, request_id } => {
            let details = vec![
                ("error_type".to_string(), Json::text("ServiceError")),
                ("message".to_string(), Json::text(message.as_str())),
                ("status_code".to_string(), Json::Unsigned(*status_code as u64)),
                ("request_id".to_string(), Json::optional_text(request_id)),
            ];
            assert(details.deep_view() =~= failure_details(*e));
            (joined("SQS ServiceError: ", message.as_str()), Json::object(details))
        },
        SdkFailure::TimeoutError { debug } => {
            let details = vec![
                ("error_type".to_string(), Json::text("TimeoutError")),
                ("message".to_string(), Json::text(debug.as_str())),
            ];
            assert(details.deep_view() =~= failure_details(*e));
            (joined("SQS TimeoutError: ", debug.as_str()), Json::object(details))
        },
        SdkFailure::DispatchFailure { debug, is_io, is_timeout, is_user, connector_error } => {
            let details = vec![
                ("error_type".to_string(), Json::text("DispatchFailure")),
                ("message".to_string(), Json::text(debug.as_str())),
                ("is_io".to_string(), Json::Bool(*is_io)),
                ("is_timeout".to_string(), Json::Bool(*is_timeout)),
                ("is_user".to_string(), Json::Bool(*is_user)),
                ("connector_error".to_string(), Json::optional_text(connector_error)),
            ];
            assert(details.deep_view() =~= failure_details(*e));
            (joined("SQS DispatchFailure: ", debug.as_str()), Json::object(details))
        },
        SdkFailure::ResponseError { status_code, debug } => {
            let details = vec![
                ("error_type".to_string(), Json::text("ResponseError")),
                ("status_code".to_string(), Json::Unsigned(*status_code as u64)),
                ("debug".to_string(), Json::text(debug.as_str())),
            ];
            assert(details.deep_view() =~= failure_details(*e));
            (
                joined(
                    "SQS ResponseError: status=",
                    decimal_u64(*status_code as u64).as_str(),
                ),
                Json::object(details),
            )
        },
        SdkFailure::ConstructionFailure { debug } => {
            let details = vec![
                ("error_type".to_string(), Json::text("ConstructionFailure")),
                ("message".to_string(), Json::text(debug.as_str())),
            ];
            assert(details.deep_view() =~= failure_details(*e));
            (joined("SQS ConstructionFailure: ", debug.as_str()), Json::object(details))
        },
        SdkFailure::Unknown { debug } => {
            let details = vec![
                ("error_type".to_string(), Json::text("Unknown")),
                ("debug".to_string(), Json::text(debug.as_str())),
            ];
            assert(details.deep_view() =~= failure_details(*e));
            (joined("SQS Error: ", debug.as_str()), Json::object(details))
        },
    }
}

/// Whether a failure says that the queue does not exist.
pub open spec fn says_queue_missing(e: SdkFailure) -> bool {
    match e {
        SdkFailure::ServiceError { message, .. } => {
            ||| contains_text(message@, "NonExistentQueue"@)
            ||| contains_text(message@, "QueueDoesNotExist"@)
            ||| contains_text(message@, "does not exist"@)
        },
        _ => false,
    }
}

/// Tells a missing queue from any other failure.
pub fn queue_missing(e: &SdkFailure) -> (r: bool)
    ensures
        r == says_queue_missing(*e),
{
    match e {
        SdkFailure::ServiceError { message, .. } => {
            has_text(message.as_str(), "NonExistentQueue") || has_text(
                message.as_str(),
                "QueueDoesNotExist",
            ) || has_text(message.as_str(), "does not exist")
        },
        _ => false,
    }
}

/// What is said of a batch that could not be sent.
pub open spec fn request_error(e: SdkFailure, account: Seq<char>) -> Seq<char> {
    "[AWS SDK ERROR] "@ + match e {
        SdkFailure::ServiceError { message, .. } => message@,
        _ => account,
    }
}

/// Says that a batch could not be sent: in the words of the service, where it answered, and else
/// in those of the client.
pub fn request_error_line(e: &SdkFailure, account: &str) -> (r: String)
    ensures
        r@ == request_error(*e, account@),
{
    match e {
        SdkFailure::ServiceError { message, .. } => joined("[AWS SDK ERROR] ", message.as_str()),
        _ => joined("[AWS SDK ERROR] ", account),
    }
}

/// What is said of a failure is of which kind it is, and then the words of the service, or of the
/// client, or the status of the answer.
pub proof fn a_failure_is_told_in_its_own_words(e: SdkFailure)
    ensures
        e matches SdkFailure::ServiceError { message, .. } ==> failure_message(e)
            == "SQS ServiceError: "@ + message@,
        e matches SdkFailure::TimeoutError { debug } ==> failure_message(e)
            == "SQS TimeoutError: "@ + debug@,
        e matches SdkFailure::DispatchFailure { debug, .. } ==> failure_message(e)
            == "SQS DispatchFailure: "@ + debug@,
        e matches SdkFailure::ResponseError { status_code, .. } ==> failure_message(e)
            == "SQS ResponseError: status="@ + decimal(status_code as nat),
        e matches SdkFailure::ConstructionFailure { debug } ==> failure_message(e)
            == "SQS ConstructionFailure: "@ + debug@,
        e matches SdkFailure::Unknown { debug } ==> failure_message(e) == "SQS Error: "@ + debug@,
{
}

/// The account of a failure holds of which kind it is and everything that is known of it, each under
/// its own name, and nothing else.
pub proof fn everything_known_of_a_failure_is_kept(e: SdkFailure)
    ensures
        e matches SdkFailure::ServiceError { message, status_code, request_id } ==> {
            let details = failure_details(e);
            &&& details.len() == 4
            &&& member(details, "error_type"@) == Some(JsonView::Text("ServiceError"@))
            &&& member(details, "message"@) == Some(JsonView::Text(message@))
            &&& member(details, "status_code"@) == Some(JsonView::Unsigned(status_code as u64))
            &&& member(details, "request_id"@) == Some(
                match request_id {
                    Some(id) => JsonView::Text(id@),
                    None => JsonView::Null,
                },
            )
        },
        e matches SdkFailure::TimeoutError { debug } ==> {
            let details = failure_details(e);
            &&& details.len() == 2
            &&& member(details, "error_type"@) == Some(JsonView::Text("TimeoutError"@))
            &&& member(details, "message"@) == Some(JsonView::Text(debug@))
        },
        e matches SdkFailure::DispatchFailure {
            debug,
            is_io,
            is_timeout,
            is_user,
            connector_error,
        } ==> {
            let details = failure_details(e);
            &&& details.len() == 6
            &&& member(details, "error_type"@) == Some(JsonView::Text("DispatchFailure"@))
            &&& member(details, "message"@) == Some(JsonView::Text(debug@))
            &&& member(details, "is_io"@) == Some(JsonView::Bool(is_io))
            &&& member(details, "is_timeout"@) == Some(JsonView::Bool(is_timeout))
            &&& member(details, "is_user"@) == Some(JsonView::Bool(is_user))
            &&& member(details, "connector_error"@) == Some(
                match connector_error {
                    Some(said) => JsonView::Text(said@),
                    None => JsonView::Null,
                },
            )
        },
        e matches SdkFailure::ResponseError { status_code, debug } ==> {
            let details = failure_details(e);
            &&& details.len() == 3
            &&& member(details, "error_type"@) == Some(JsonView::Text("ResponseError"@))
            &&& member(details, "status_code"@) == Some(JsonView::Unsigned(status_code as u64))
            &&& member(details, "debug"@) == Some(JsonView::Text(debug@))
        },
        e matches SdkFailure::ConstructionFailure { debug } ==> {
            let details = failure_details(e);
            &&& details.len() == 2
            &&& member(details, "error_type"@) == Some(JsonView::Text("ConstructionFailure"@))
            &&& member(details, "message"@) == Some(JsonView::Text(debug@))
        },
        e matches SdkFailure::Unknown { debug } ==> {
            let details = failure_details(e);
            &&& details.len() == 2
            &&& member(details, "error_type"@) == Some(JsonView::Text("Unknown"@))
            &&& member(details, "debug"@) == Some(JsonView::Text(debug@))
        },
{
    reveal_strlit("error_type");
    reveal_strlit("message");
    reveal_strlit("status_code");
    reveal_strlit("request_id");
    reveal_strlit("is_io");
    reveal_strlit("is_timeout");
    reveal_strlit("is_user");
    reveal_strlit("connector_error");
    reveal_strlit("debug");
    assert("error_type"@[0] == 'e' && "message"@[0] == 'm' && "status_code"@[0] == 's'
        && "request_id"@[0] == 'r' && "is_io"@[0] == 'i' && "connector_error"@[0] == 'c'
        && "debug"@[0] == 'd' && "is_timeout"@[0] == 'i' && "is_user"@[0] == 'i');
    assert("is_io"@.len() == 5 && "is_timeout"@.len() == 10 && "is_user"@.len() == 7);
    let details = failure_details(e);
    lemma_member_at(details, 0);
    lemma_member_at(details, 1);
    match e {
        SdkFailure::ServiceError { .. } => {
            lemma_member_at(details, 2);
            lemma_member_at(details, 3);
        },
        SdkFailure::DispatchFailure { .. } => {
            lemma_member_at(details, 2);
            lemma_member_at(details, 3);
            lemma_member_at(details, 4);
            lemma_member_at(details, 5);
        },
        SdkFailure::ResponseError { .. } => {
            lemma_member_at(details, 2);
        },
        _ => {},
    }
}

/// A queue is missing exactly where the service says so: in one of three ways, with anything before
/// and behind. No other failure says it.
pub proof fn a_queue_is_missing_where_the_service_says_so(
    e: SdkFailure,
    front: Seq<char>,
    back: Seq<char>,
)
    ensures
        !(e is ServiceError) ==> !says_queue_missing(e),
        e matches SdkFailure::ServiceError { message, .. } ==> {
            &&& message@ == front + "NonExistentQueue"@ + back ==> says_queue_missing(e)
            &&& message@ == front + "QueueDoesNotExist"@ + back ==> says_queue_missing(e)
            &&& message@ == front + "does not exist"@ + back ==> says_queue_missing(e)
            &&& says_queue_missing(e) ==> contains_text(message@, "NonExistentQueue"@)
                || contains_text(message@, "QueueDoesNotExist"@) || contains_text(
                message@,
                "does not exist"@,
            )
        },
{
    a_text_stands_between_others(front, "NonExistentQueue"@, back);
    a_text_stands_between_others(front, "QueueDoesNotExist"@, back);
    a_text_stands_between_others(front, "does not exist"@, back);
}

/// Of a batch that could not be sent the words of the service are told where it answered, and else
/// those of the client.
pub proof fn the_words_of_the_service_come_first(e: SdkFailure, account: Seq<char>)
    ensures
        e matches SdkFailure::ServiceError { message, .. } ==> request_error(e, account)
            == "[AWS SDK ERROR] "@ + message@,
        !(e is ServiceError) ==> request_error(e, account) == "[AWS SDK ERROR] "@ + account,
{
}

} // verus!
