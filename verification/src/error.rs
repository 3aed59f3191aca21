//! What can go wrong, and how it is told.

use vstd::prelude::*;
use crate::text::{cat, cat3, owned, push_text, text_eq};

verus! {

/// A JSON text that does not hold what was asked of it. Nothing more is known.
#[derive(Debug, Clone, Copy, PartialEq, Eq, Structural)]
pub struct JsonError;

#[derive(Debug)]
pub enum BackendError {
    Unsupported,
    /// What was waited for.
    Timeout(String),
    /// The program that could not be run, and why.
    Io(&'static str, String),
    /// The program that failed, and what it said.
    CommandFailed(&'static str, String),
    /// The program whose output made no sense, and why.
    InvalidOutput(&'static str, String),
    Json(JsonError),
    Message(String),
}

pub enum BackendErrorView {
    Unsupported,
    Timeout(Seq<char>),
    Io(Seq<char>, Seq<char>),
    CommandFailed(Seq<char>, Seq<char>),
    InvalidOutput(Seq<char>, Seq<char>),
    Json,
    Message(Seq<char>),
}

impl View for BackendError {
    type V = BackendErrorView;

    open spec fn view(&self) -> BackendErrorView {
        match self {
            BackendError::Unsupported => BackendErrorView::Unsupported,
            BackendError::Timeout(s) => BackendErrorView::Timeout(s@),
            BackendError::Io(p, s) => BackendErrorView::Io(p@, s@),
            BackendError::CommandFailed(p, s) => BackendErrorView::CommandFailed(p@, s@),
            BackendError::InvalidOutput(p, s) => BackendErrorView::InvalidOutput(p@, s@),
            BackendError::Json(_) => BackendErrorView::Json,
            BackendError::Message(s) => BackendErrorView::Message(s@),
        }
    }
}

/// An outcome whose error is taken by its view.
pub open spec fn outcome<T>(r: Result<T, BackendError>) -> Result<T, BackendErrorView> {
    match r {
        Ok(t) => Ok(t),
        Err(e) => Err(e@),
    }
}

impl BackendErrorView {
    /// The error as it is told to a user.
    pub open spec fn text(self) -> Seq<char> {
        match self {
            BackendErrorView::Unsupported =>
                "PipeWire was not detected as the active audio server"@,
            BackendErrorView::Timeout(thing) => "timed out waiting for "@ + thing,
            BackendErrorView::Io(program, source) => "failed to run "@ + program + ": "@ + source,
            BackendErrorView::CommandFailed(program, stderr) => program + " failed: "@ + stderr,
            BackendErrorView::InvalidOutput(program, reason) => "invalid output from "@ + program
                + ": "@ + reason,
            BackendErrorView::Json => "failed to parse PipeWire state: Error"@,
            BackendErrorView::Message(message) => message,
        }
    }

    /// A fault in reading the graph that may be gone at the next try.
    pub open spec fn transient(self) -> bool {
        match self {
            BackendErrorView::Json => true,
            BackendErrorView::CommandFailed(program, _) => program == "pw-dump"@,
            BackendErrorView::InvalidOutput(program, _) => program == "pw-dump"@,
            BackendErrorView::Timeout(name) => name == "pw-dump"@,
            _ => false,
        }
    }
}

impl BackendError {
    pub fn is_transient_snapshot_error(&self) -> (r: bool)
        ensures
            r == self@.transient(),
    {
        match self {
            BackendError::Json(_) => true,
            BackendError::CommandFailed(program, _) => text_eq(program, "pw-dump"),
            BackendError::InvalidOutput(program, _) => text_eq(program, "pw-dump"),
            BackendError::Timeout(name) => text_eq(name.as_str(), "pw-dump"),
            _ => false,
        }
    }

    /// The error as it is told to a user.
    pub fn to_text(&self) -> (r: String)
        ensures
            r@ == self@.text(),
    {
        match self {
            BackendError::Unsupported => owned(
                "PipeWire was not detected as the active audio server",
            ),
            BackendError::Timeout(thing) => cat("timed out waiting for ", thing.as_str()),
            BackendError::Io(program, source) => {
                let mut r = cat3("failed to run ", program, ": ");
                push_text(&mut r, source.as_str());
                r
            },
            BackendError::CommandFailed(program, stderr) => cat3(
                program,
                " failed: ",
                stderr.as_str(),
            ),
            BackendError::InvalidOutput(program, reason) => {
                let mut r = cat3("invalid output from ", program, ": ");
                push_text(&mut r, reason.as_str());
                r
            },
            BackendError::Json(_) => owned("failed to parse PipeWire state: Error"),
            BackendError::Message(message) => message.clone(),
        }
    }

    /// An error that says `message`.
    pub fn message(message: &str) -> (r: Self)
        ensures
            r@ == BackendErrorView::Message(message@),
    {
        BackendError::Message(owned(message))
    }
}

impl From<JsonError> for BackendError {
    fn from(value: JsonError) -> (r: Self) {
        BackendError::Json(value)
    }
}

impl vstd::std_specs::convert::FromSpecImpl<JsonError> for BackendError {
    open spec fn obeys_from_spec() -> bool {
        true
    }

    open spec fn from_spec(value: JsonError) -> Self {
        BackendError::Json(value)
    }
}

impl Clone for BackendError {
    fn clone(&self) -> (r: Self)
        ensures
            r == *self,
    {
        match self {
            BackendError::Unsupported => BackendError::Unsupported,
            BackendError::Timeout(s) => BackendError::Timeout(s.clone()),
            BackendError::Io(p, s) => BackendError::Io(p, s.clone()),
            BackendError::CommandFailed(p, s) => BackendError::CommandFailed(p, s.clone()),
            BackendError::InvalidOutput(p, s) => BackendError::InvalidOutput(p, s.clone()),
            BackendError::Json(e) => BackendError::Json(*e),
            BackendError::Message(s) => BackendError::Message(s.clone()),
        }
    }
}

/// Every error is told in its own words, with the program it is about and the
/// reason it was given.
pub proof fn errors_are_told_in_their_own_words(a: Seq<char>, b: Seq<char>)
    ensures
        BackendErrorView::Unsupported.text()
            == "PipeWire was not detected as the active audio server"@,
        BackendErrorView::Timeout(a).text() == "timed out waiting for "@ + a,
        BackendErrorView::Io(a, b).text() == "failed to run "@ + a + ": "@ + b,
        BackendErrorView::CommandFailed(a, b).text() == a + " failed: "@ + b,
        BackendErrorView::InvalidOutput(a, b).text() == "invalid output from "@ + a + ": "@ + b,
        BackendErrorView::Json.text() == "failed to parse PipeWire state: Error"@,
        BackendErrorView::Message(a).text() == a,
{
}

/// A fault may be gone at the next try exactly if it is about what `pw-dump`
/// printed or about `pw-dump` itself, unless it could not be run.
pub proof fn faults_of_the_dump_may_pass(program: Seq<char>, why: Seq<char>)
    ensures
        BackendErrorView::Json.transient(),
        BackendErrorView::CommandFailed(program, why).transient() == (program == "pw-dump"@),
        BackendErrorView::InvalidOutput(program, why).transient() == (program == "pw-dump"@),
        BackendErrorView::Timeout(program).transient() == (program == "pw-dump"@),
        !BackendErrorView::Io(program, why).transient(),
        !BackendErrorView::Message(why).transient(),
        !BackendErrorView::Unsupported.transient(),
{
}

/// A view of an error shows what it is about and why, and an outcome keeps its
/// result.
pub proof fn views_of_errors_show_what_they_tell<T>(
    a: String,
    program: &'static str,
    j: JsonError,
    value: T,
    e: BackendError,
)
    ensures
        BackendError::Unsupported@ == BackendErrorView::Unsupported,
        BackendError::Timeout(a)@ == BackendErrorView::Timeout(a@),
        BackendError::Io(program, a)@ == BackendErrorView::Io(program@, a@),
        BackendError::CommandFailed(program, a)@ == BackendErrorView::CommandFailed(program@, a@),
        BackendError::InvalidOutput(program, a)@ == BackendErrorView::InvalidOutput(program@, a@),
        BackendError::Json(j)@ == BackendErrorView::Json,
        BackendError::Message(a)@ == BackendErrorView::Message(a@),
        outcome(Ok::<T, BackendError>(value)) == Ok::<T, BackendErrorView>(value),
        outcome(Err::<T, BackendError>(e)) == Err::<T, BackendErrorView>(e@),
{
}

} // verus!
