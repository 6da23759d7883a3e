//! The errors that requests are answered with.

use crate::json;
use vstd::prelude::*;

verus! {

/// The answer to a request that failed: a status code and a JSON body.
#[derive(Debug)]
pub struct ErrorReply {
    pub status: u16,
    pub body: String,
}

/// Why the gateway refuses or fails a request.
#[derive(Debug)]
pub enum AppError {
    BadRequest(String),
    Unauthorized(String),
    Internal(String),
}

impl AppError {
    /// The status code that the error is answered with.
    pub open spec fn status(self) -> u16 {
        match self {
            AppError::BadRequest(_) => 400,
            AppError::Unauthorized(_) => 401,
            AppError::Internal(_) => 500,
        }
    }

    /// What the error says.
    pub open spec fn message(self) -> Seq<char> {
        match self {
            AppError::BadRequest(message) => message@,
            AppError::Unauthorized(message) => message@,
            AppError::Internal(message) => message@,
        }
    }

    /// The answer that the error gets.
    pub fn into_response(self) -> (r: ErrorReply)
        ensures
            r.status == self.status(),
            r.body@ == json::object_text(json::error_fields(self.message())),
    {
        match self {
            AppError::BadRequest(message) => ErrorReply {
                status: 400,
                body: json::error_json(message),
            },
            AppError::Unauthorized(message) => ErrorReply {
                status: 401,
                body: json::error_json(message),
            },
            AppError::Internal(message) => ErrorReply {
                status: 500,
                body: json::error_json(message),
            },
        }
    }
}

/// Why the worker refuses or fails a request.
#[derive(Debug)]
pub enum WorkerError {
    BadRequest(String),
    Busy,
    Conflict(String),
    Internal(String),
}

impl WorkerError {
    /// The status code that the error is answered with.
    pub open spec fn status(self) -> u16 {
        match self {
            WorkerError::BadRequest(_) => 400,
            WorkerError::Busy => 503,
            WorkerError::Conflict(_) => 409,
            WorkerError::Internal(_) => 500,
        }
    }

    /// What the error says.
    pub open spec fn message(self) -> Seq<char> {
        match self {
            WorkerError::BadRequest(message) => message@,
            WorkerError::Busy => "all accounts are busy"@,
            WorkerError::Conflict(message) => message@,
            WorkerError::Internal(message) => message@,
        }
    }

    /// The answer that the error gets.
    pub fn into_response(self) -> (r: ErrorReply)
        ensures
            r.status == self.status(),
            r.body@ == json::object_text(json::error_fields(self.message())),
    {
        match self {
            WorkerError::BadRequest(message) => ErrorReply {
                status: 400,
                body: json::error_json(message),
            },
            WorkerError::Busy => ErrorReply {
                status: 503,
                body: json::error_json("all accounts are busy".to_string()),
            },
            WorkerError::Conflict(message) => ErrorReply {
                status: 409,
                body: json::error_json(message),
            },
            WorkerError::Internal(message) => ErrorReply {
                status: 500,
                body: json::error_json(message),
            },
        }
    }
}

/// What happened and the outside error that made it happen, as one message.
pub open spec fn caused(what: Seq<char>, detail: Seq<char>) -> Seq<char> {
    what + ": "@ + detail
}

/// What happened and the outside error that made it happen, as one message.
pub fn with_cause(what: &str, detail: &str) -> (r: String)
    ensures
        r@ == caused(what@, detail@),
{
    let mut message = String::new();
    message.append(what);
    message.append(": ");
    message.append(detail);
    assert(message@ =~= caused(what@, detail@));
    message
}

/// Something that the gateway does outside and that can fail.
#[derive(Clone, Copy, Debug)]
pub enum GatewayStep {
    BuildClient,
    Serve,
    Chat,
    Fetch,
    FetchBody,
    ListAccounts,
    ListAccountsBody,
    AddAccounts,
    AddAccountsBody,
    DeleteAccount,
}

impl GatewayStep {
    /// What is said where the step fails.
    pub open spec fn failure(self) -> Seq<char> {
        match self {
            GatewayStep::BuildClient => "build HTTP client failed"@,
            GatewayStep::Serve => "server failed"@,
            GatewayStep::Chat => "worker chat request failed"@,
            GatewayStep::Fetch => "worker request failed"@,
            GatewayStep::FetchBody => "worker body failed"@,
            GatewayStep::ListAccounts => "worker admin request failed"@,
            GatewayStep::ListAccountsBody => "worker admin body failed"@,
            GatewayStep::AddAccounts => "worker add accounts failed"@,
            GatewayStep::AddAccountsBody => "worker add accounts body failed"@,
            GatewayStep::DeleteAccount => "worker delete account failed"@,
        }
    }

    /// The error that a failure of the step gives, with the outside error's own words.
    pub fn failed(self, detail: &str) -> (r: AppError)
        ensures
            r is Internal,
            r.message() == caused(self.failure(), detail@),
    {
        let what: &str = match self {
            GatewayStep::BuildClient => "build HTTP client failed",
            GatewayStep::Serve => "server failed",
            GatewayStep::Chat => "worker chat request failed",
            GatewayStep::Fetch => "worker request failed",
            GatewayStep::FetchBody => "worker body failed",
            GatewayStep::ListAccounts => "worker admin request failed",
            GatewayStep::ListAccountsBody => "worker admin body failed",
            GatewayStep::AddAccounts => "worker add accounts failed",
            GatewayStep::AddAccountsBody => "worker add accounts body failed",
            GatewayStep::DeleteAccount => "worker delete account failed",
        };
        AppError::Internal(with_cause(what, detail))
    }
}

/// Something that the worker does outside and that can fail.
#[derive(Clone, Copy, Debug)]
pub enum WorkerStep {
    InitAdapter,
    Serve,
    BuildRequest,
    WriteResponse,
}

impl WorkerStep {
    /// What is said where the step fails.
    pub open spec fn failure(self) -> Seq<char> {
        match self {
            WorkerStep::InitAdapter => "init DeepSeek adapter failed"@,
            WorkerStep::Serve => "server failed"@,
            WorkerStep::BuildRequest => "build compression request failed"@,
            WorkerStep::WriteResponse => "serialize response failed"@,
        }
    }

    /// The error that a failure of the step gives, with the outside error's own words.
    pub fn failed(self, detail: &str) -> (r: WorkerError)
        ensures
            r is Internal,
            r.message() == caused(self.failure(), detail@),
    {
        let what: &str = match self {
            WorkerStep::InitAdapter => "init DeepSeek adapter failed",
            WorkerStep::Serve => "server failed",
            WorkerStep::BuildRequest => "build compression request failed",
            WorkerStep::WriteResponse => "serialize response failed",
        };
        WorkerError::Internal(with_cause(what, detail))
    }
}

/// What is said where listening at `address` fails.
pub open spec fn bind_failure(address: Seq<char>, detail: Seq<char>) -> Seq<char> {
    caused("bind "@ + address + " failed"@, detail)
}

/// What is said where listening at `address` fails.
pub fn bind_failed(address: &str, detail: &str) -> (r: String)
    ensures
        r@ == bind_failure(address@, detail@),
{
    let mut what = String::new();
    what.append("bind ");
    what.append(address);
    what.append(" failed");
    assert(what@ =~= "bind "@ + address@ + " failed"@);
    with_cause(what.as_str(), detail)
}

/// An error's answer has a status code that says so.
pub proof fn law_errors_are_answered_as_errors(gateway: AppError, worker: WorkerError)
    ensures
        400 <= gateway.status() < 600,
        400 <= worker.status() < 600,
{
}

// --------------------------------------------------------------------- laws

/// An error says what it was made with, and is answered with the status code of its sort.
pub proof fn law_errors_say_what_they_were_made_with(message: String)
    ensures
        AppError::BadRequest(message).message() == message@,
        AppError::Unauthorized(message).message() == message@,
        AppError::Internal(message).message() == message@,
        AppError::BadRequest(message).status() == 400,
        AppError::Unauthorized(message).status() == 401,
        AppError::Internal(message).status() == 500,
        WorkerError::BadRequest(message).message() == message@,
        WorkerError::Conflict(message).message() == message@,
        WorkerError::Internal(message).message() == message@,
        WorkerError::BadRequest(message).status() == 400,
        WorkerError::Busy.status() == 503,
        WorkerError::Conflict(message).status() == 409,
        WorkerError::Internal(message).status() == 500,
{
}

/// A message with a cause is what happened, a colon and a space, and the cause, each whole.
pub proof fn law_cause_is_told_whole(what: Seq<char>, detail: Seq<char>, address: Seq<char>)
    ensures
        caused(what, detail) == what + seq![':', ' '] + detail,
        bind_failure(address, detail) == seq!['b', 'i', 'n', 'd', ' '] + address + seq![
            ' ',
            'f',
            'a',
            'i',
            'l',
            'e',
            'd',
            ':',
            ' ',
        ] + detail,
{
    reveal_strlit(": ");
    reveal_strlit("bind ");
    reveal_strlit(" failed");
    assert(": "@ =~= seq![':', ' ']);
    assert(bind_failure(address, detail) =~= seq!['b', 'i', 'n', 'd', ' '] + address + seq![
        ' ',
        'f',
        'a',
        'i',
        'l',
        'e',
        'd',
        ':',
        ' ',
    ] + detail);
}

} // verus!
