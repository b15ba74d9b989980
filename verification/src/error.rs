//! Error and result types.

use vstd::prelude::*;

use crate::constants::{
    pam_strerror_static, strerror_text, PAM_OPEN_ERR, PAM_SERVICE_ERR, PAM_SUCCESS, PAM_SYSTEM_ERR,
};
use crate::text::{push_signed_decimal, push_str, signed_decimal};

verus! {

/// PAM status code wrapper (compatible with Linux-PAM return values).
#[derive(Debug, Clone, Copy, PartialEq, Eq, Hash, Structural)]
pub struct PamStatus(pub i32);

impl PamStatus {
    /// Success.
    pub fn success() -> (r: Self)
        ensures
            r.0 == PAM_SUCCESS,
    {
        Self(PAM_SUCCESS)
    }

    /// Construct from a raw `i32`.
    pub fn new(code: i32) -> (r: Self)
        ensures
            r.0 == code,
    {
        Self(code)
    }

    /// Raw status code.
    pub fn code(self) -> (r: i32)
        ensures
            r == self.0,
    {
        self.0
    }

    /// Whether this is [`PAM_SUCCESS`].
    pub fn is_success(self) -> (r: bool)
        ensures
            r == (self.0 == PAM_SUCCESS),
    {
        self.0 == PAM_SUCCESS
    }

    /// Static description string.
    pub fn description(self) -> (r: &'static str)
        ensures
            r@ == strerror_text(self.0 as int),
    {
        pam_strerror_static(self.0)
    }

    /// Display form: `"<description> (<code>)"`.
    pub fn to_string(&self) -> (r: String)
        ensures
            r@ == strerror_text(self.0 as int) + " ("@ + signed_decimal(self.0 as int) + ")"@,
    {
        let mut out = String::new();
        push_str(&mut out, self.description());
        push_str(&mut out, " (");
        push_signed_decimal(&mut out, self.0 as i64);
        push_str(&mut out, ")");
        out
    }
}

impl From<i32> for PamStatus {
    fn from(v: i32) -> (r: Self) {
        Self(v)
    }
}

impl vstd::std_specs::convert::FromSpecImpl<i32> for PamStatus {
    open spec fn obeys_from_spec() -> bool {
        true
    }

    open spec fn from_spec(v: i32) -> Self {
        PamStatus(v)
    }
}

impl From<PamStatus> for i32 {
    fn from(s: PamStatus) -> (r: Self) {
        s.0
    }
}

impl vstd::std_specs::convert::FromSpecImpl<PamStatus> for i32 {
    open spec fn obeys_from_spec() -> bool {
        true
    }

    open spec fn from_spec(s: PamStatus) -> i32 {
        s.0
    }
}

/// Rich error for Rust API callers (not the C ABI path).
#[derive(Debug, Clone)]
pub enum PamError {
    /// PAM status failure.
    Status(PamStatus),
    /// Configuration / TOML error.
    Config(String),
    /// I/O error message.
    Io(String),
    /// Invalid argument.
    InvalidArgument(String),
    /// Module load / symbol error.
    Module(String),
    /// Internal invariant broken.
    Internal(String),
}

/// The status code that each kind of error maps to at the C ABI.
pub open spec fn error_status(e: PamError) -> PamStatus {
    match e {
        PamError::Status(s) => s,
        PamError::Config(_) => PamStatus(PAM_SERVICE_ERR),
        PamError::Io(_) => PamStatus(PAM_SYSTEM_ERR),
        PamError::InvalidArgument(_) => PamStatus(PAM_SYSTEM_ERR),
        PamError::Module(_) => PamStatus(PAM_OPEN_ERR),
        PamError::Internal(_) => PamStatus(PAM_SYSTEM_ERR),
    }
}

/// Display form of an error: a kind prefix, then the message.
pub open spec fn error_text(e: PamError) -> Seq<char> {
    match e {
        PamError::Status(s) => "PAM: "@ + strerror_text(s.0 as int) + " ("@ + signed_decimal(
            s.0 as int,
        ) + ")"@,
        PamError::Config(m) => "config: "@ + m@,
        PamError::Io(m) => "io: "@ + m@,
        PamError::InvalidArgument(m) => "invalid argument: "@ + m@,
        PamError::Module(m) => "module: "@ + m@,
        PamError::Internal(m) => "internal: "@ + m@,
    }
}

impl PamError {
    /// Map to a PAM status code for C ABI returns.
    pub fn to_status(&self) -> (r: PamStatus)
        ensures
            r == error_status(*self),
    {
        match self {
            PamError::Status(s) => *s,
            PamError::Config(_) => PamStatus::new(PAM_SERVICE_ERR),
            PamError::Io(_) => PamStatus::new(PAM_SYSTEM_ERR),
            PamError::InvalidArgument(_) => PamStatus::new(PAM_SYSTEM_ERR),
            PamError::Module(_) => PamStatus::new(PAM_OPEN_ERR),
            PamError::Internal(_) => PamStatus::new(PAM_SYSTEM_ERR),
        }
    }

    /// Display form: a kind prefix, then the message.
    pub fn to_string(&self) -> (r: String)
        ensures
            r@ == error_text(*self),
    {
        let mut out = String::new();
        match self {
            PamError::Status(s) => {
                push_str(&mut out, "PAM: ");
                let t = s.to_string();
                push_str(&mut out, t.as_str());
            },
            PamError::Config(m) => {
                push_str(&mut out, "config: ");
                push_str(&mut out, m.as_str());
            },
            PamError::Io(m) => {
                push_str(&mut out, "io: ");
                push_str(&mut out, m.as_str());
            },
            PamError::InvalidArgument(m) => {
                push_str(&mut out, "invalid argument: ");
                push_str(&mut out, m.as_str());
            },
            PamError::Module(m) => {
                push_str(&mut out, "module: ");
                push_str(&mut out, m.as_str());
            },
            PamError::Internal(m) => {
                push_str(&mut out, "internal: ");
                push_str(&mut out, m.as_str());
            },
        }
        proof {
            if let PamError::Status(s) = *self {
                assert(out@ =~= error_text(*self));
            }
        }
        out
    }
}

impl From<PamStatus> for PamError {
    fn from(s: PamStatus) -> (r: Self) {
        PamError::Status(s)
    }
}

impl vstd::std_specs::convert::FromSpecImpl<PamStatus> for PamError {
    open spec fn obeys_from_spec() -> bool {
        true
    }

    open spec fn from_spec(s: PamStatus) -> PamError {
        PamError::Status(s)
    }
}

impl From<i32> for PamError {
    fn from(code: i32) -> (r: Self) {
        PamError::Status(PamStatus::new(code))
    }
}

impl vstd::std_specs::convert::FromSpecImpl<i32> for PamError {
    open spec fn obeys_from_spec() -> bool {
        true
    }

    open spec fn from_spec(code: i32) -> PamError {
        PamError::Status(PamStatus(code))
    }
}

/// Result alias for elevate-pam operations.
pub type PamResult<T> = Result<T, PamError>;

/// Convert a [`PamResult`] into a C-style status code.
pub fn result_to_c<T>(r: PamResult<T>) -> (c: i32)
    ensures
        c == match r {
            Ok(_) => PAM_SUCCESS,
            Err(e) => error_status(e).0,
        },
{
    match r {
        Ok(_) => PAM_SUCCESS,
        Err(e) => e.to_status().code(),
    }
}

} // verus!
