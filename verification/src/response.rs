//! The response handed to the transport: a body, a status and the CORS headers.

use vstd::prelude::*;

verus! {

/// Status of a response whose body is the requested result.
pub const STATUS_OK: u16 = 200;

/// Status of a response that no handler has filled in.
pub const STATUS_NOT_FOUND: u16 = 404;

/// The cross-origin headers every response carries.
#[derive(Debug, Clone, Copy, PartialEq, Eq, Structural)]
pub struct Headers {
    pub access_control_allow_origin: char,
    pub access_control_allow_credentials: bool,
}

impl Headers {
    /// Any origin is allowed, and credentials may be sent.
    pub open spec fn permissive() -> Headers {
        Headers { access_control_allow_origin: '*', access_control_allow_credentials: true }
    }
}

impl Default for Headers {
    fn default() -> (headers: Self)
        ensures
            headers == Headers::permissive(),
    {
        Headers { access_control_allow_origin: '*', access_control_allow_credentials: true }
    }
}

/// A response as the transport serialises it.
#[derive(Debug, PartialEq, Eq)]
pub struct CustomOutput {
    pub body: String,
    pub status_code: u16,
    pub headers: Headers,
}

/// The mathematical value of a [`CustomOutput`].
pub struct OutputView {
    pub body: Seq<char>,
    pub status_code: u16,
    pub headers: Headers,
}

impl View for CustomOutput {
    type V = OutputView;

    open spec fn view(&self) -> OutputView {
        OutputView { body: self.body@, status_code: self.status_code, headers: self.headers }
    }
}

impl Default for CustomOutput {
    fn default() -> (output: Self)
        ensures
            output@ == (OutputView {
                body: Seq::empty(),
                status_code: STATUS_NOT_FOUND,
                headers: Headers::permissive(),
            }),
    {
        CustomOutput {
            body: String::new(),
            status_code: STATUS_NOT_FOUND,
            headers: Headers::default(),
        }
    }
}

impl CustomOutput {
    /// The response to a request that succeeded with `body` as its result.
    pub fn ok(body: String) -> (output: Self)
        ensures
            output@ == (OutputView {
                body: body@,
                status_code: STATUS_OK,
                headers: Headers::permissive(),
            }),
    {
        CustomOutput { body, status_code: STATUS_OK, headers: Headers::default() }
    }
}

} // verus!
