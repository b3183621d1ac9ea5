//! Offline rendering errors.
use vstd::prelude::*;
use crate::text::owned;

verus! {

/// A rendering or WAV-writing failure, with its message.
#[derive(Debug, Clone, PartialEq)]
pub enum RenderError {
    Message(String),
}

impl RenderError {
    /// The error's message.
    pub fn message(&self) -> (res: String)
        ensures
            match self {
                RenderError::Message(m) => res@ == m@,
            },
    {
        match self {
            RenderError::Message(m) => owned(m.as_str()),
        }
    }
}

} // verus!
