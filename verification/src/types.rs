//! Core PAM types.

use vstd::prelude::*;

use crate::constants::{
    PAM_AUTHTOK, PAM_AUTHTOK_TYPE, PAM_BINARY_PROMPT, PAM_CONV, PAM_ERROR_MSG, PAM_FAIL_DELAY,
    PAM_OLDAUTHTOK, PAM_PROMPT_ECHO_OFF, PAM_PROMPT_ECHO_ON, PAM_RADIO_TYPE, PAM_RHOST, PAM_RUSER,
    PAM_SERVICE, PAM_TEXT_INFO, PAM_TTY, PAM_USER, PAM_USER_PROMPT, PAM_XAUTHDATA, PAM_XDISPLAY,
};

verus! {

/// Message style for conversation prompts.
#[derive(Debug, Clone, Copy, PartialEq, Eq, Structural)]
pub enum MsgStyle {
    /// Prompt with echo off.
    PromptEchoOff,
    /// Prompt with echo on.
    PromptEchoOn,
    /// Error message to display.
    ErrorMsg,
    /// Informational text.
    TextInfo,
    /// Radio / multi-choice (Linux-PAM).
    RadioType,
    /// Binary prompt (Linux-PAM).
    BinaryPrompt,
}

/// The Linux-PAM integer of each message style.
pub open spec fn msg_style_raw(s: MsgStyle) -> i32 {
    match s {
        MsgStyle::PromptEchoOff => PAM_PROMPT_ECHO_OFF,
        MsgStyle::PromptEchoOn => PAM_PROMPT_ECHO_ON,
        MsgStyle::ErrorMsg => PAM_ERROR_MSG,
        MsgStyle::TextInfo => PAM_TEXT_INFO,
        MsgStyle::RadioType => PAM_RADIO_TYPE,
        MsgStyle::BinaryPrompt => PAM_BINARY_PROMPT,
    }
}

impl MsgStyle {
    /// Parse from raw integer.
    pub fn from_raw(v: i32) -> (r: Option<Self>)
        ensures
            match r {
                Some(s) => msg_style_raw(s) == v,
                None => forall|s: MsgStyle| msg_style_raw(s) != v,
            },
    {
        match v {
            PAM_PROMPT_ECHO_OFF => Some(Self::PromptEchoOff),
            PAM_PROMPT_ECHO_ON => Some(Self::PromptEchoOn),
            PAM_ERROR_MSG => Some(Self::ErrorMsg),
            PAM_TEXT_INFO => Some(Self::TextInfo),
            PAM_RADIO_TYPE => Some(Self::RadioType),
            PAM_BINARY_PROMPT => Some(Self::BinaryPrompt),
            _ => None,
        }
    }

    /// Raw integer for FFI.
    pub fn as_raw(self) -> (r: i32)
        ensures
            r == msg_style_raw(self),
    {
        match self {
            Self::PromptEchoOff => PAM_PROMPT_ECHO_OFF,
            Self::PromptEchoOn => PAM_PROMPT_ECHO_ON,
            Self::ErrorMsg => PAM_ERROR_MSG,
            Self::TextInfo => PAM_TEXT_INFO,
            Self::RadioType => PAM_RADIO_TYPE,
            Self::BinaryPrompt => PAM_BINARY_PROMPT,
        }
    }
}

/// A single conversation message (owned, Rust side).
#[derive(Debug, Clone)]
pub struct Message {
    /// Message style.
    pub style: MsgStyle,
    /// Message text.
    pub text: String,
}

/// A conversation response (owned).
#[derive(Debug, Clone)]
pub struct Response {
    /// Response text (may be empty).
    pub text: String,
    /// Currently unused by Linux-PAM; kept for ABI parity.
    pub retcode: i32,
}

impl Default for Response {
    fn default() -> (r: Self)
        ensures
            r.text@ == Seq::<char>::empty(),
            r.retcode == 0,
    {
        Response { text: String::new(), retcode: 0 }
    }
}

/// Which PAM stack is being executed.
#[derive(Debug, Clone, Copy, PartialEq, Eq, Hash, Structural)]
pub enum StackKind {
    /// Authentication (`pam_authenticate` / `pam_sm_authenticate`).
    Auth,
    /// Credential management (`pam_setcred`).
    SetCred,
    /// Account management (`pam_acct_mgmt`).
    Account,
    /// Open session.
    OpenSession,
    /// Close session.
    CloseSession,
    /// Change authentication token.
    ChAuthTok,
}

/// Short name used in TOML tables for each stack kind.
pub open spec fn stack_kind_name(k: StackKind) -> Seq<char> {
    match k {
        StackKind::Auth => "auth"@,
        StackKind::SetCred => "setcred"@,
        StackKind::Account => "account"@,
        StackKind::OpenSession => "session_open"@,
        StackKind::CloseSession => "session_close"@,
        StackKind::ChAuthTok => "password"@,
    }
}

impl StackKind {
    /// Short name used in TOML tables (`auth`, `account`, …).
    pub fn as_str(self) -> (r: &'static str)
        ensures
            r@ == stack_kind_name(self),
    {
        match self {
            Self::Auth => "auth",
            Self::SetCred => "setcred",
            Self::Account => "account",
            Self::OpenSession => "session_open",
            Self::CloseSession => "session_close",
            Self::ChAuthTok => "password",
        }
    }
}

/// Dispatch action after a module returns (Linux-PAM internal model).
#[derive(Debug, Clone, Copy, PartialEq, Eq, Structural)]
pub enum Action {
    /// Ignore this result for the overall impression.
    Ignore,
    /// Treat as success contribution (Linux-PAM's `ok`).
    Okay,
    /// Stack done successfully (sufficient).
    Done,
    /// Record failure; continue stack.
    Bad,
    /// Immediate failure (requisite).
    Die,
    /// Reset impression.
    Reset,
    /// Jump forward N modules (bracket control syntax).
    Jump(u16),
}

impl Action {
    /// Default action for an undefined return code mapping.
    pub fn default_bad() -> (r: Self)
        ensures
            r == Action::Bad,
    {
        Self::Bad
    }
}

/// Item identifiers as a typed enum.
#[derive(Debug, Clone, Copy, PartialEq, Eq, Hash, Structural)]
pub enum ItemType {
    /// Service name.
    Service,
    /// User name.
    User,
    /// TTY.
    Tty,
    /// Remote host.
    RHost,
    /// Conversation pointer.
    Conv,
    /// Auth token.
    AuthTok,
    /// Old auth token.
    OldAuthTok,
    /// Remote user.
    RUser,
    /// User prompt.
    UserPrompt,
    /// Fail delay fn.
    FailDelay,
    /// X display.
    XDisplay,
    /// X auth data.
    XAuthData,
    /// Auth token type string.
    AuthTokType,
}

/// The Linux-PAM item id of each item type.
pub open spec fn item_raw(t: ItemType) -> i32 {
    match t {
        ItemType::Service => PAM_SERVICE,
        ItemType::User => PAM_USER,
        ItemType::Tty => PAM_TTY,
        ItemType::RHost => PAM_RHOST,
        ItemType::Conv => PAM_CONV,
        ItemType::AuthTok => PAM_AUTHTOK,
        ItemType::OldAuthTok => PAM_OLDAUTHTOK,
        ItemType::RUser => PAM_RUSER,
        ItemType::UserPrompt => PAM_USER_PROMPT,
        ItemType::FailDelay => PAM_FAIL_DELAY,
        ItemType::XDisplay => PAM_XDISPLAY,
        ItemType::XAuthData => PAM_XAUTHDATA,
        ItemType::AuthTokType => PAM_AUTHTOK_TYPE,
    }
}

impl ItemType {
    /// Parse from raw item id.
    pub fn from_raw(v: i32) -> (r: Option<Self>)
        ensures
            match r {
                Some(t) => item_raw(t) == v,
                None => forall|t: ItemType| item_raw(t) != v,
            },
    {
        match v {
            PAM_SERVICE => Some(Self::Service),
            PAM_USER => Some(Self::User),
            PAM_TTY => Some(Self::Tty),
            PAM_RHOST => Some(Self::RHost),
            PAM_CONV => Some(Self::Conv),
            PAM_AUTHTOK => Some(Self::AuthTok),
            PAM_OLDAUTHTOK => Some(Self::OldAuthTok),
            PAM_RUSER => Some(Self::RUser),
            PAM_USER_PROMPT => Some(Self::UserPrompt),
            PAM_FAIL_DELAY => Some(Self::FailDelay),
            PAM_XDISPLAY => Some(Self::XDisplay),
            PAM_XAUTHDATA => Some(Self::XAuthData),
            PAM_AUTHTOK_TYPE => Some(Self::AuthTokType),
            _ => None,
        }
    }
}

} // verus!
