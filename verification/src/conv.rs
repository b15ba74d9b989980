//! Conversation functions on the Rust side.

use vstd::prelude::*;

use crate::constants::PAM_CONV_ERR;
use crate::error::{PamError, PamStatus};
use crate::types::{Message, MsgStyle, Response};

verus! {

/// Trait for Rust-side conversation functions, implemented by applications.
pub trait Converser: Send {
    /// Prompt the user with messages; return one response per message that
    /// expects input.
    fn converse(&mut self, messages: &[Message]) -> Result<Vec<Response>, PamError>;
}

/// No-op converser (always fails prompts).
#[derive(Debug, Default)]
pub struct NullConverser;

impl Converser for NullConverser {
    fn converse(&mut self, messages: &[Message]) -> (r: Result<Vec<Response>, PamError>)
        ensures
            r == Err::<Vec<Response>, PamError>(PamError::Status(PamStatus(PAM_CONV_ERR))),
    {
        Err(PamError::Status(PamStatus::new(PAM_CONV_ERR)))
    }
}

/// Simple in-memory converser for tests (fixed password / username).
#[derive(Debug, Clone)]
pub struct FixedConverser {
    /// Password to return for echo-off prompts.
    pub password: String,
    /// Text for echo-on prompts.
    pub username: String,
}

/// The answer of a [`FixedConverser`] to a message of style `style`.
pub open spec fn fixed_answer(c: FixedConverser, style: MsgStyle) -> Seq<char> {
    match style {
        MsgStyle::PromptEchoOff => c.password@,
        MsgStyle::PromptEchoOn => c.username@,
        _ => Seq::empty(),
    }
}

impl Converser for FixedConverser {
    fn converse(&mut self, messages: &[Message]) -> (r: Result<Vec<Response>, PamError>)
        ensures
            *final(self) == *old(self),
            r matches Ok(out) && out@.len() == messages@.len() && forall|i: int|
                0 <= i < out@.len() ==> (#[trigger] out@[i]).text@ == fixed_answer(
                    *old(self),
                    messages@[i].style,
                ) && out@[i].retcode == 0,
    {
        let mut out: Vec<Response> = Vec::new();
        let mut i: usize = 0;
        while i < messages.len()
            invariant
                i <= messages@.len(),
                out@.len() == i,
                *self == *old(self),
                forall|j: int|
                    0 <= j < i ==> (#[trigger] out@[j]).text@ == fixed_answer(
                        *old(self),
                        messages@[j].style,
                    ) && out@[j].retcode == 0,
            decreases messages@.len() - i,
        {
            let text = match messages[i].style {
                MsgStyle::PromptEchoOff => self.password.clone(),
                MsgStyle::PromptEchoOn => self.username.clone(),
                _ => String::new(),
            };
            out.push(Response { text, retcode: 0 });
            i += 1;
        }
        Ok(out)
    }
}

} // verus!
