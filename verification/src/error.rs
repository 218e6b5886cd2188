//! The server's errors, their HTTP status codes and their messages.
use vstd::prelude::*;
use crate::text::{push_str, string_from_chars};

verus! {

/// `anyhow::Error`, carried through as an opaque value.
#[verifier::external_type_specification]
#[verifier::external_body]
pub struct ExAnyhowError(anyhow::Error);

/// An error the server answers a request with.
pub enum AperioError {
    Unauthorized(String),
    Forbidden(String),
    NotFound(String),
    BadRequest(String),
    Conflict(String),
    Sync(String),
    Vault(String),
    Internal(anyhow::Error),
}

/// The HTTP status of each error.
pub open spec fn status_code_spec(e: AperioError) -> u16 {
    match e {
        AperioError::Unauthorized(_) => 401,
        AperioError::Forbidden(_) => 403,
        AperioError::NotFound(_) => 404,
        AperioError::BadRequest(_) => 400,
        AperioError::Conflict(_) => 409,
        AperioError::Sync(_) => 502,
        AperioError::Vault(_) | AperioError::Internal(_) => 500,
    }
}

/// The message of an error that carries text: its kind, a colon and the text.
pub open spec fn message_spec(e: AperioError) -> Option<Seq<char>> {
    match e {
        AperioError::Unauthorized(m) => Some("unauthorized: "@ + m@),
        AperioError::Forbidden(m) => Some("forbidden: "@ + m@),
        AperioError::NotFound(m) => Some("not found: "@ + m@),
        AperioError::BadRequest(m) => Some("bad request: "@ + m@),
        AperioError::Conflict(m) => Some("conflict: "@ + m@),
        AperioError::Sync(m) => Some("sync error: "@ + m@),
        AperioError::Vault(m) => Some("vault error: "@ + m@),
        AperioError::Internal(_) => None,
    }
}

/// Calls `ToString::to_string` on an `anyhow::Error`: the text of its outermost
/// context. What that text holds is not stated.
#[verifier::external_body]
fn anyhow_text(e: &anyhow::Error) -> (r: String) {
    e.to_string()
}

impl AperioError {
    /// The HTTP status code answered for this error.
    pub fn status_code(&self) -> (r: u16)
        ensures
            r == status_code_spec(*self),
    {
        match self {
            AperioError::Unauthorized(_) => 401,
            AperioError::Forbidden(_) => 403,
            AperioError::NotFound(_) => 404,
            AperioError::BadRequest(_) => 400,
            AperioError::Conflict(_) => 409,
            AperioError::Sync(_) => 502,
            AperioError::Vault(_) | AperioError::Internal(_) => 500,
        }
    }

    /// The error's message, as its `Display` writes it.
    pub fn message(&self) -> (r: String)
        ensures
            message_spec(*self) matches Some(m) ==> r@ == m,
            self is Internal ==> (exists|t: Seq<char>| r@ == "internal error: "@ + t),
    {
        let mut out: Vec<char> = Vec::new();
        match self {
            AperioError::Unauthorized(m) => {
                push_str(&mut out, "unauthorized: ");
                push_str(&mut out, m.as_str());
            },
            AperioError::Forbidden(m) => {
                push_str(&mut out, "forbidden: ");
                push_str(&mut out, m.as_str());
            },
            AperioError::NotFound(m) => {
                push_str(&mut out, "not found: ");
                push_str(&mut out, m.as_str());
            },
            AperioError::BadRequest(m) => {
                push_str(&mut out, "bad request: ");
                push_str(&mut out, m.as_str());
            },
            AperioError::Conflict(m) => {
                push_str(&mut out, "conflict: ");
                push_str(&mut out, m.as_str());
            },
            AperioError::Sync(m) => {
                push_str(&mut out, "sync error: ");
                push_str(&mut out, m.as_str());
            },
            AperioError::Vault(m) => {
                push_str(&mut out, "vault error: ");
                push_str(&mut out, m.as_str());
            },
            AperioError::Internal(e) => {
                push_str(&mut out, "internal error: ");
                let t = anyhow_text(e);
                push_str(&mut out, t.as_str());
            },
        }
        string_from_chars(&out)
    }
}

} // verus!
