//! Question-and-answer prompts: text fields, passwords, numbers, confirmations,
//! toggles, checkboxes and radio buttons, with focus handling.
//!
//! The prompts are models that react to key presses; the views turn them into
//! text. Everything here works on plain values: entities are identified by
//! [Entity] and keys by the types of [keys].
use vstd::prelude::*;

pub mod utf8_text;
mod std_string;
pub mod string_cursor;
pub mod keys;
pub mod focus;
pub mod prompt;
pub mod view;
pub mod tab;
pub mod dest;

verus! {

/// Identifies an entity that carries a prompt or a part of one.
#[derive(Debug, Clone, Copy, PartialEq, Eq, Structural, Hash)]
pub struct Entity(pub u64);

/// In each update, the controllers run before the views.
#[derive(Debug, Clone, Copy, PartialEq, Eq, Structural, Hash)]
pub enum AskySet {
    /// Process inputs and modify models
    Controller,
    /// Construct or update view components
    View,
}

/// Asky errors
#[derive(Debug, Clone, Copy, PartialEq, Eq, Structural)]
pub enum Error {
    /// User canceled
    Cancel,
    /// Input was invalid
    InvalidInput,
    /// Invalid number
    InvalidNumber,
    /// Validation failed
    ValidationFail,
    /// Submit handled already failure
    SubmitHandled,
}

/// The message that describes an error.
pub open spec fn error_message(e: Error) -> Seq<char> {
    match e {
        Error::Cancel => "canceled"@,
        Error::InvalidInput => "invalid input"@,
        Error::InvalidNumber => "invalid number"@,
        Error::ValidationFail => "validation fail"@,
        Error::SubmitHandled => "submit handled"@,
    }
}

impl Error {
    /// The message that describes this error.
    pub fn message(&self) -> (m: &'static str)
        ensures
            m@ == error_message(*self),
    {
        match self {
            Error::Cancel => "canceled",
            Error::InvalidInput => "invalid input",
            Error::InvalidNumber => "invalid number",
            Error::ValidationFail => "validation fail",
            Error::SubmitHandled => "submit handled",
        }
    }
}

/// The state of a submission.
#[derive(Debug)]
pub enum SubmitState<T> {
    /// Submit has not been handled yet.
    Unhandled(Result<T, Error>),
    /// Submit has been handled.
    Handled,
}

/// A prompt's answer, or the error that ended it, addressed to the prompt's entity.
#[derive(Debug)]
pub struct Submit<T> {
    /// The entity that triggered this submit event.
    pub entity: Entity,
    /// The state of the submit event.
    pub state: SubmitState<T>,
}

/// What taking the result out of a submission leaves behind and returns.
pub open spec fn take_result_spec<T>(state: SubmitState<T>) -> (SubmitState<T>, Result<T, Error>) {
    match state {
        SubmitState::Unhandled(r) => (SubmitState::Handled, r),
        SubmitState::Handled => (SubmitState::Handled, Err(Error::SubmitHandled)),
    }
}

impl<T> Submit<T> {
    /// Create a new submission event.
    pub fn new(entity: Entity, r: Result<T, Error>) -> (s: Self)
        ensures
            s.entity == entity,
            s.state == SubmitState::Unhandled(r),
    {
        Submit { entity, state: SubmitState::Unhandled(r) }
    }

    /// Take the result out; a second take gives `Err(Error::SubmitHandled)`.
    pub fn take_result(&mut self) -> (r: Result<T, Error>)
        ensures
            final(self).entity == old(self).entity,
            (final(self).state, r) == take_result_spec(old(self).state),
    {
        let mut taken = SubmitState::Handled;
        core::mem::swap(&mut self.state, &mut taken);
        match taken {
            SubmitState::Unhandled(res) => res,
            SubmitState::Handled => Err(Error::SubmitHandled),
        }
    }

    /// Get the event (for observers).
    pub fn event(&self) -> (e: &SubmitState<T>)
        ensures
            *e == self.state,
    {
        &self.state
    }

    /// Get the event mutably (for observers).
    pub fn event_mut(&mut self) -> (e: &mut SubmitState<T>)
        ensures
            *e == old(self).state,
            final(self).entity == old(self).entity,
            final(self).state == *final(e),
    {
        &mut self.state
    }
}

/// A submission's result can be taken once: taking it again gives
/// `Err(Error::SubmitHandled)`.
pub proof fn law_result_taken_once<T>(state: SubmitState<T>)
    ensures
        take_result_spec(take_result_spec(state).0) == (
            SubmitState::<T>::Handled,
            Err::<T, Error>(Error::SubmitHandled),
        ),
{
}

} // verus!
