//! The shapes of the requests and responses that a service built on the
//! store exchanges with its clients.

use vstd::prelude::*;

verus! {

/// The envelope of every response: a code, a message, and the payload where
/// there is one.
pub struct UnifiedResponse<T> {
    pub error_code: i32,
    pub msg: String,
    pub data: Option<T>,
}

impl<T> UnifiedResponse<T> {
    /// The response that carries `data`: code zero and no message.
    pub fn ok(data: T) -> (r: Self)
        ensures
            r.error_code == 0,
            r.msg@ == Seq::<char>::empty(),
            r.data == Some(data),
    {
        UnifiedResponse { error_code: 0, msg: String::new(), data: Some(data) }
    }

    /// The response that reports a failure: `code`, `msg`, and no payload.
    pub fn err(code: i32, msg: &str) -> (r: Self)
        ensures
            r.error_code == code,
            r.msg@ == msg@,
            r.data is None,
    {
        UnifiedResponse { error_code: code, msg: msg.to_owned(), data: None }
    }
}

/// What a new user sends to register.
pub struct RegisterRequest {
    pub nickname: String,
    pub password: String,
    pub phone: String,
}

/// What a user sends to log in.
pub struct LoginRequest {
    pub phone: String,
    pub password: String,
}

/// The fields of a user that an update may change.
pub struct UpdateUserRequest {
    pub nickname: Option<String>,
    pub password: Option<String>,
}

/// What a successful login returns.
pub struct LoginResponse {
    pub token: String,
    pub user_id: i64,
}

} // verus!
