//! Checkbox, Confirm, Number, Password, Radio, TextField, Toggle
use vstd::prelude::*;
use vstd::string::StringExecFns;

pub mod checkbox;
pub mod confirm;
pub mod input;
pub mod number;
pub mod radio;
pub mod text;
pub mod toggle;

verus! {

/// The question a prompt asks.
#[derive(Debug, Clone, PartialEq, Eq)]
pub struct Prompt(pub String);

/// Text to show while the answer is empty.
#[derive(Debug, Clone, PartialEq, Eq)]
pub struct Placeholder(pub String);

/// The answer given when the user enters nothing.
#[derive(Debug, Clone, Copy, PartialEq, Eq)]
pub struct DefaultValue<T>(pub T);

/// Used to unify toggle and confirm handling: a prompt with two named options.
pub trait OptionPrompt {
    /// The name of option `index`.
    spec fn option_name(&self, index: int) -> Seq<char>;

    /// The selected option.
    spec fn selected(&self) -> usize;

    /// Return name of option; there are two options.
    fn name(&self, index: usize) -> (r: &str)
        requires
            index < 2,
        ensures
            r@ == self.option_name(index as int),
    ;

    /// Return state of prompt: the selected option.
    fn state(&self) -> (r: usize)
        ensures
            r == self.selected(),
    ;
}

/// Kind of feedback
#[derive(Debug, Clone, Copy, PartialEq, Eq, Structural)]
pub enum FeedbackKind {
    /// No feedback
    Empty,
    /// Informational
    Info,
    /// Warning
    Warn,
    /// Error
    Error,
}

/// The name of a kind of feedback.
pub open spec fn kind_text(kind: FeedbackKind) -> Seq<char> {
    match kind {
        FeedbackKind::Info => "info"@,
        FeedbackKind::Warn => "warn"@,
        FeedbackKind::Error => "error"@,
        FeedbackKind::Empty => "NONE"@,
    }
}

impl FeedbackKind {
    /// The name of this kind of feedback.
    pub fn as_str(&self) -> (r: &'static str)
        ensures
            r@ == kind_text(*self),
    {
        match self {
            FeedbackKind::Info => "info",
            FeedbackKind::Warn => "warn",
            FeedbackKind::Error => "error",
            FeedbackKind::Empty => "NONE",
        }
    }
}

/// Feedback shown under a prompt.
#[derive(Debug, Clone, PartialEq, Eq)]
pub struct Feedback {
    /// What kind of feedback?
    pub kind: FeedbackKind,
    /// Message
    pub message: String,
}

/// How feedback reads: nothing for no feedback, the bare message for
/// information, and the kind before the message otherwise.
pub open spec fn feedback_text(kind: FeedbackKind, message: Seq<char>) -> Seq<char> {
    match kind {
        FeedbackKind::Empty => Seq::empty(),
        FeedbackKind::Info => message,
        _ => kind_text(kind) + ": "@ + message,
    }
}

impl Feedback {
    /// Clear feedback.
    pub fn clear(&mut self)
        ensures
            final(self).kind == FeedbackKind::Empty,
            final(self).message@ == Seq::<char>::empty(),
    {
        self.kind = FeedbackKind::Empty;
        self.message = String::new();
    }

    /// Informational
    pub fn info(message: &str) -> (f: Self)
        ensures
            f.kind == FeedbackKind::Info,
            f.message@ == message@,
    {
        Feedback { kind: FeedbackKind::Info, message: message.to_owned() }
    }

    /// Warning
    pub fn warn(message: &str) -> (f: Self)
        ensures
            f.kind == FeedbackKind::Warn,
            f.message@ == message@,
    {
        Feedback { kind: FeedbackKind::Warn, message: message.to_owned() }
    }

    /// Error
    pub fn error(message: &str) -> (f: Self)
        ensures
            f.kind == FeedbackKind::Error,
            f.message@ == message@,
    {
        Feedback { kind: FeedbackKind::Error, message: message.to_owned() }
    }

    /// The feedback as it reads on screen.
    pub fn to_text(&self) -> (s: String)
        ensures
            s@ == feedback_text(self.kind, self.message@),
    {
        match self.kind {
            FeedbackKind::Empty => String::new(),
            FeedbackKind::Info => self.message.clone(),
            _ => String::from_str(self.kind.as_str()).concat(": ").concat(self.message.as_str()),
        }
    }
}

} // verus!
