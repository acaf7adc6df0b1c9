//! The uniform result envelope every operation renders to, and the
//! shared response-body helpers.

use vstd::prelude::*;
use crate::password::{spec_password_field_name, PasswordType};
use crate::render::{render_error, render_success_str, spec_error_json, spec_success_json};

verus! {

/// The envelope a handler's body carries: either a datum under
/// `data` with a null `error`, or an error code with a message.
pub enum ServiceResult<T> {
    Success { error: (), data: T },
    Error { error: &'static str, message: String },
}

impl<T> ServiceResult<T> {
    /// Wraps a datum in the success envelope.
    pub fn success(data: T) -> (r: Self)
        ensures
            r == (ServiceResult::Success { data, error: () }),
    {
        ServiceResult::Success { data, error: () }
    }
}

impl ServiceResult<()> {
    /// Wraps an error code and message in the error envelope.
    pub fn error(error_type: &'static str, message: String) -> (r: Self)
        ensures
            r == (ServiceResult::<()>::Error { error: error_type, message }),
    {
        ServiceResult::Error { error: error_type, message }
    }
}

/// The JSON body of an envelope around a string datum.
pub open spec fn spec_result_json(r: ServiceResult<String>) -> Seq<char> {
    match r {
        ServiceResult::Success { data, .. } => spec_success_json(data@),
        ServiceResult::Error { error, message } => spec_error_json(error@, message@),
    }
}

impl ServiceResult<String> {
    /// Renders the envelope onto the JSON wire.
    pub fn to_json(&self) -> (r: String)
        ensures
            r@ == spec_result_json(*self),
    {
        match self {
            ServiceResult::Success { data, .. } => render_success_str(data.as_str()),
            ServiceResult::Error { error, message } => render_error(error, message.as_str()),
        }
    }
}

/// An error as a handler surfaces it: a short code and a message.
#[derive(Debug, Clone, PartialEq)]
pub struct ServiceError {
    pub etype: String,
    pub message: String,
}

/// The generic success body.
pub fn success() -> (r: String)
    ensures
        r@ == spec_success_json("success"@),
{
    render_success_str("success")
}

/// The message of a failed password check.
pub open spec fn spec_invalid_password_message(t: PasswordType) -> Seq<char> {
    "The passed "@ + spec_password_field_name(t) + " password is invalid"@
}

/// The body of a failed password check: distinguishes a wrong
/// credential from bad input.
pub fn invalid_password(password_type: PasswordType) -> (r: String)
    ensures
        r@ == spec_error_json("invalid-password"@, spec_invalid_password_message(password_type)),
{
    let mut message = String::from_str("The passed ");
    message.append(password_type.field_name());
    message.append(" password is invalid");
    let r = render_error("invalid-password", message.as_str());
    proof {
        assert(message@ =~= spec_invalid_password_message(password_type));
    }
    r
}

/// The body of a rejected input.
pub fn input_error(message: &str) -> (r: String)
    ensures
        r@ == spec_error_json("input-invalid"@, message@),
{
    render_error("input-invalid", message)
}

/// The body of a backend failure: wraps the underlying cause as a
/// plain string.
pub fn service_error(message: &str) -> (r: String)
    ensures
        r@ == spec_error_json("backend"@, message@),
{
    render_error("backend", message)
}

} // verus!
