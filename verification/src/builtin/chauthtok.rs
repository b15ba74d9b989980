//! The decisions of `pam_unix`'s password change: which phase the flags
//! ask for, and the steps of the update phase, from the new password to
//! the rewritten shadow entry and the history record.
//!
//! The update phase is a state machine: [`update_step`] takes the state
//! and what the last action gave, and says what to do next.  Asking the
//! conversation, hashing, reading the history and writing the files are
//! the caller's.

use vstd::prelude::*;

use crate::config::strings_view;
use crate::constants::{PAM_AUTHTOK_ERR, PAM_AUTHTOK_RECOVERY_ERR, PAM_PRELIM_CHECK, PAM_SUCCESS, PAM_UPDATE_AUTHTOK};

verus! {

/// The phase of a password change that the flags ask for.
#[derive(Debug, Clone, Copy, PartialEq, Eq, Structural)]
pub enum PasswdPhase {
    /// Check the current password.
    Prelim,
    /// Set the new password.
    Update,
    /// Neither: the request is refused with `PAM_AUTHTOK_ERR`.
    Neither,
}

/// The phase that `flags` ask for; the preliminary check wins when both
/// bits are set.
pub fn passwd_phase(flags: i32) -> (r: PasswdPhase)
    ensures
        r == if flags & PAM_PRELIM_CHECK != 0 {
            PasswdPhase::Prelim
        } else if flags & PAM_UPDATE_AUTHTOK != 0 {
            PasswdPhase::Update
        } else {
            PasswdPhase::Neither
        },
{
    if flags & PAM_PRELIM_CHECK != 0 {
        PasswdPhase::Prelim
    } else if flags & PAM_UPDATE_AUTHTOK != 0 {
        PasswdPhase::Update
    } else {
        PasswdPhase::Neither
    }
}

/// Where the update phase stands.
#[derive(Debug)]
pub enum UpdateState {
    /// Nothing done yet.
    Start,
    /// Waiting for the new password (reused or first answer).
    AwaitNew,
    /// Waiting for the retyped password; holds the first answer.
    AwaitRetype(String),
    /// Waiting for the history check of this password.
    AwaitHistory(String),
    /// Waiting for the hash of the new password.
    AwaitHash,
    /// Waiting for the shadow file to be written with this hash.
    AwaitWrite(String),
    /// Waiting for the history to be recorded.
    AwaitRecord,
    /// Done, with this status.
    Finished(i32),
}

/// What the last action gave.
#[derive(Debug)]
pub enum UpdateEvent {
    /// Start the phase.
    Begin,
    /// The token asked for: the reused one or the conversation's answer;
    /// `None` when there was none or the conversation failed.
    Token(Option<String>),
    /// Whether the password is among the user's recent ones.
    HistoryChecked(bool),
    /// The new hash, `None` when hashing failed.
    Hashed(Option<String>),
    /// Whether the shadow file was written.
    Written(bool),
    /// Whether the history was recorded.
    Recorded(bool),
}

/// Why the phase ended as it did, for the log.
#[derive(Debug, Clone, Copy, PartialEq, Eq, Structural)]
pub enum UpdateNote {
    /// The retyped password differs from the first.
    Mismatch,
    /// The new password is shorter than this `minlen=`.
    TooShort(usize),
    /// The new password matches a recently used one.
    InHistory,
    /// The shadow file could not be updated.
    ShadowNotWritten,
    /// The history could not be updated (the change still succeeded).
    HistoryNotRecorded,
}

/// What to do next.
#[derive(Debug)]
pub enum UpdateAction {
    /// Take the token that an earlier module set (`use_authtok`).
    ReuseToken,
    /// Ask for the new password.
    AskNew,
    /// Ask for the new password again.
    AskRetype,
    /// Check this password against the user's history.
    CheckHistory(String),
    /// Hash this password.
    Hash(String),
    /// Write this hash into the user's shadow entry.
    WriteShadow(String),
    /// Record this hash in the user's history, keeping this many.
    RecordHistory(String, usize),
    /// Finish with this status, logging the note if there is one.
    Finish(i32, Option<UpdateNote>),
}

/// A number argument (`minlen=`, `remember=`), 0 when absent or not a
/// number.
pub open spec fn number_arg(args: Seq<Seq<char>>, key: Seq<char>) -> usize {
    match crate::module::arg_number(args, key, usize::MAX as int) {
        Some(v) => v as usize,
        None => 0usize,
    }
}

/// The end of the phase with `PAM_AUTHTOK_ERR` and, unless `quiet`, a note.
pub open spec fn refused(args: Seq<Seq<char>>, note: UpdateNote) -> (UpdateState, UpdateAction) {
    (
        UpdateState::Finished(PAM_AUTHTOK_ERR),
        UpdateAction::Finish(
            PAM_AUTHTOK_ERR,
            if args.contains("quiet"@) {
                None
            } else {
                Some(note)
            },
        ),
    )
}

/// The end of the phase with `code` and no note.
pub open spec fn finished(code: i32) -> (UpdateState, UpdateAction) {
    (UpdateState::Finished(code), UpdateAction::Finish(code, None))
}

/// What follows once the new password `t` is known: refused when shorter
/// than `minlen=`, checked against the history when `remember=` is set,
/// hashed otherwise.
pub open spec fn after_new_password(t: String, args: Seq<Seq<char>>) -> (UpdateState, UpdateAction) {
    if (vstd::utf8::encode_utf8(t@).len() as usize) < number_arg(args, "minlen"@) {
        refused(args, UpdateNote::TooShort(number_arg(args, "minlen"@)))
    } else if number_arg(args, "remember"@) > 0 {
        (UpdateState::AwaitHistory(t), UpdateAction::CheckHistory(t))
    } else {
        (UpdateState::AwaitHash, UpdateAction::Hash(t))
    }
}

/// One step of the update phase.  With `use_authtok` the new password is
/// the token an earlier module set, and without one the change fails
/// with `PAM_AUTHTOK_RECOVERY_ERR`; otherwise it is asked twice, and a
/// failed conversation or a retype that differs ends it with
/// `PAM_AUTHTOK_ERR`.  The password is then held to `minlen=` and, with
/// `remember=`, to the history; its hash is written to the shadow file
/// and, with `remember=`, recorded in the history, whose failure is only
/// noted.  An event that does not answer the pending action ends the
/// phase with `PAM_AUTHTOK_ERR`.
pub open spec fn update_next(state: UpdateState, event: UpdateEvent, args: Seq<Seq<char>>) -> (
    UpdateState,
    UpdateAction,
) {
    let reuse = args.contains("use_authtok"@);
    match (state, event) {
        (UpdateState::Start, UpdateEvent::Begin) => if reuse {
            (UpdateState::AwaitNew, UpdateAction::ReuseToken)
        } else {
            (UpdateState::AwaitNew, UpdateAction::AskNew)
        },
        (UpdateState::AwaitNew, UpdateEvent::Token(None)) => if reuse {
            finished(PAM_AUTHTOK_RECOVERY_ERR)
        } else {
            finished(PAM_AUTHTOK_ERR)
        },
        (UpdateState::AwaitNew, UpdateEvent::Token(Some(t))) => if reuse {
            after_new_password(t, args)
        } else {
            (UpdateState::AwaitRetype(t), UpdateAction::AskRetype)
        },
        (UpdateState::AwaitRetype(_), UpdateEvent::Token(None)) => finished(PAM_AUTHTOK_ERR),
        (UpdateState::AwaitRetype(first), UpdateEvent::Token(Some(second))) => if first@
            == second@ {
            after_new_password(first, args)
        } else {
            refused(args, UpdateNote::Mismatch)
        },
        (UpdateState::AwaitHistory(t), UpdateEvent::HistoryChecked(seen)) => if seen {
            refused(args, UpdateNote::InHistory)
        } else {
            (UpdateState::AwaitHash, UpdateAction::Hash(t))
        },
        (UpdateState::AwaitHash, UpdateEvent::Hashed(None)) => finished(PAM_AUTHTOK_ERR),
        (UpdateState::AwaitHash, UpdateEvent::Hashed(Some(h))) => (
            UpdateState::AwaitWrite(h),
            UpdateAction::WriteShadow(h),
        ),
        (UpdateState::AwaitWrite(_), UpdateEvent::Written(false)) => (
            UpdateState::Finished(PAM_AUTHTOK_ERR),
            UpdateAction::Finish(PAM_AUTHTOK_ERR, Some(UpdateNote::ShadowNotWritten)),
        ),
        (UpdateState::AwaitWrite(h), UpdateEvent::Written(true)) => if number_arg(
            args,
            "remember"@,
        ) > 0 {
            (UpdateState::AwaitRecord, UpdateAction::RecordHistory(h, number_arg(args, "remember"@)))
        } else {
            finished(PAM_SUCCESS)
        },
        (UpdateState::AwaitRecord, UpdateEvent::Recorded(ok)) => (
            UpdateState::Finished(PAM_SUCCESS),
            UpdateAction::Finish(
                PAM_SUCCESS,
                if ok {
                    None
                } else {
                    Some(UpdateNote::HistoryNotRecorded)
                },
            ),
        ),
        _ => finished(PAM_AUTHTOK_ERR),
    }
}

fn refuse(args: &[String], note: UpdateNote) -> (r: (UpdateState, UpdateAction))
    ensures
        r == refused(strings_view(args@), note),
{
    let quiet = crate::module::arg_has(args, "quiet");
    (
        UpdateState::Finished(PAM_AUTHTOK_ERR),
        UpdateAction::Finish(
            PAM_AUTHTOK_ERR,
            if quiet {
                None
            } else {
                Some(note)
            },
        ),
    )
}

fn finish(code: i32) -> (r: (UpdateState, UpdateAction))
    ensures
        r == finished(code),
{
    (UpdateState::Finished(code), UpdateAction::Finish(code, None))
}

fn new_password_known(t: String, args: &[String]) -> (r: (UpdateState, UpdateAction))
    ensures
        r == after_new_password(t, strings_view(args@)),
{
    if crate::builtin::unix::too_short(t.as_str(), args) {
        let minlen = crate::builtin::unix::usize_arg(args, "minlen");
        refuse(args, UpdateNote::TooShort(minlen))
    } else if crate::builtin::unix::usize_arg(args, "remember") > 0 {
        let copy = t.clone();
        (UpdateState::AwaitHistory(t), UpdateAction::CheckHistory(copy))
    } else {
        (UpdateState::AwaitHash, UpdateAction::Hash(t))
    }
}

/// Take one step of the update phase (see [`update_next`]).
pub fn update_step(state: UpdateState, event: UpdateEvent, args: &[String]) -> (r: (
    UpdateState,
    UpdateAction,
))
    ensures
        r == update_next(state, event, strings_view(args@)),
{
    let reuse = crate::module::arg_has(args, "use_authtok");
    match (state, event) {
        (UpdateState::Start, UpdateEvent::Begin) => if reuse {
            (UpdateState::AwaitNew, UpdateAction::ReuseToken)
        } else {
            (UpdateState::AwaitNew, UpdateAction::AskNew)
        },
        (UpdateState::AwaitNew, UpdateEvent::Token(None)) => if reuse {
            finish(PAM_AUTHTOK_RECOVERY_ERR)
        } else {
            finish(PAM_AUTHTOK_ERR)
        },
        (UpdateState::AwaitNew, UpdateEvent::Token(Some(t))) => if reuse {
            new_password_known(t, args)
        } else {
            (UpdateState::AwaitRetype(t), UpdateAction::AskRetype)
        },
        (UpdateState::AwaitRetype(_), UpdateEvent::Token(None)) => finish(PAM_AUTHTOK_ERR),
        (UpdateState::AwaitRetype(first), UpdateEvent::Token(Some(second))) => {
            if crate::text::str_eq(first.as_str(), second.as_str()) {
                new_password_known(first, args)
            } else {
                refuse(args, UpdateNote::Mismatch)
            }
        },
        (UpdateState::AwaitHistory(t), UpdateEvent::HistoryChecked(seen)) => if seen {
            refuse(args, UpdateNote::InHistory)
        } else {
            (UpdateState::AwaitHash, UpdateAction::Hash(t))
        },
        (UpdateState::AwaitHash, UpdateEvent::Hashed(None)) => finish(PAM_AUTHTOK_ERR),
        (UpdateState::AwaitHash, UpdateEvent::Hashed(Some(h))) => {
            let copy = h.clone();
            (UpdateState::AwaitWrite(h), UpdateAction::WriteShadow(copy))
        },
        (UpdateState::AwaitWrite(_), UpdateEvent::Written(false)) => (
            UpdateState::Finished(PAM_AUTHTOK_ERR),
            UpdateAction::Finish(PAM_AUTHTOK_ERR, Some(UpdateNote::ShadowNotWritten)),
        ),
        (UpdateState::AwaitWrite(h), UpdateEvent::Written(true)) => {
            let remember = crate::builtin::unix::usize_arg(args, "remember");
            if remember > 0 {
                (UpdateState::AwaitRecord, UpdateAction::RecordHistory(h, remember))
            } else {
                finish(PAM_SUCCESS)
            }
        },
        (UpdateState::AwaitRecord, UpdateEvent::Recorded(ok)) => (
            UpdateState::Finished(PAM_SUCCESS),
            UpdateAction::Finish(
                PAM_SUCCESS,
                if ok {
                    None
                } else {
                    Some(UpdateNote::HistoryNotRecorded)
                },
            ),
        ),
        _ => finish(PAM_AUTHTOK_ERR),
    }
}

/// The update phase ends in success only after the shadow file was
/// written: at the step that learns the write succeeded, or at the step
/// that learns what became of the history record that follows it.
pub proof fn law_success_only_after_write(
    state: UpdateState,
    event: UpdateEvent,
    args: Seq<Seq<char>>,
)
    ensures
        update_next(state, event, args).1 matches UpdateAction::Finish(code, _) && code
            == PAM_SUCCESS ==> (state is AwaitWrite && event matches UpdateEvent::Written(true))
            || state is AwaitRecord,
{
}

} // verus!
