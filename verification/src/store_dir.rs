//! Making sure that the store directory exists: the decisions between the
//! steps that the caller performs (checking for the directory, creating it
//! when it is missing).

use vstd::prelude::*;

use crate::paths::{DirObtainError, dir_error_text};

verus! {

/// Why the store directory is not there to use.  Paths and the messages of
/// the errors met are held as text.
#[derive(Debug)]
pub enum EnsureError {
    Path(DirObtainError),
    Create(String, String),
    CheckExists(String, String),
}

/// The text of an `EnsureError`.
pub open spec fn ensure_error_text(e: EnsureError) -> Seq<char> {
    match e {
        EnsureError::Path(d) => dir_error_text(d),
        EnsureError::Create(p, m) => "Could not create the "@ + p@ + " directory: "@ + m@ + "."@,
        EnsureError::CheckExists(p, m) => "Could not check whether the store path ("@ + p@ + ") exists: "@ + m@
            + "."@,
    }
}

/// `a`, `b` and `c` one after another.
fn text3(a: &str, b: &str, c: &str) -> (r: String)
    ensures
        r@ == a@ + b@ + c@,
{
    let mut r = a.to_owned();
    r.append(b);
    r.append(c);
    r
}

impl EnsureError {
    /// The text of the error.
    pub fn message(&self) -> (r: String)
        ensures
            r@ == ensure_error_text(*self),
    {
        match self {
            EnsureError::Path(d) => d.message(),
            EnsureError::Create(p, m) => {
                let mut r = text3("Could not create the ", p.as_str(), " directory: ");
                r.append(m.as_str());
                r.append(".");
                r
            },
            EnsureError::CheckExists(p, m) => {
                let mut r = text3("Could not check whether the store path (", p.as_str(), ") exists: ");
                r.append(m.as_str());
                r.append(".");
                r
            },
        }
    }
}

/// Where the making sure of the store directory stands, and so what the
/// caller does next.
#[derive(Debug)]
pub enum Ensuring {
    /// Check whether the directory at the path exists.
    Check(String),
    /// Create the directory at the path, with its parents.
    Create(String),
    /// Done: the directory to use, or why there is none.
    Finished(Result<String, EnsureError>),
}

/// What came of the step that the caller performed; errors by their message.
#[derive(Debug)]
pub enum EnsureEvent {
    Exists(Result<bool, String>),
    Created(Result<(), String>),
}

/// The first step, once the store's path has been looked for.
pub open spec fn start_spec(located: Result<String, DirObtainError>) -> Ensuring {
    match located {
        Ok(p) => Ensuring::Check(p),
        Err(e) => Ensuring::Finished(Err(EnsureError::Path(e))),
    }
}

/// The next step after an event.  An event that does not answer the current
/// step leaves it as it is.
pub open spec fn step_spec(state: Ensuring, event: EnsureEvent) -> Ensuring {
    match (state, event) {
        (Ensuring::Check(p), EnsureEvent::Exists(r)) => match r {
            Ok(true) => Ensuring::Finished(Ok(p)),
            Ok(false) => Ensuring::Create(p),
            Err(m) => Ensuring::Finished(Err(EnsureError::CheckExists(p, m))),
        },
        (Ensuring::Create(p), EnsureEvent::Created(r)) => match r {
            Ok(()) => Ensuring::Finished(Ok(p)),
            Err(m) => Ensuring::Finished(Err(EnsureError::Create(p, m))),
        },
        (s, _) => s,
    }
}

/// Starts making sure of the store directory, from where looking for its
/// path came out.
pub fn ensure(located: Result<String, DirObtainError>) -> (r: Ensuring)
    ensures
        r == start_spec(located),
{
    match located {
        Ok(p) => Ensuring::Check(p),
        Err(e) => Ensuring::Finished(Err(EnsureError::Path(e))),
    }
}

/// The next step after the caller performed the current one.
pub fn ensure_step(state: Ensuring, event: EnsureEvent) -> (r: Ensuring)
    ensures
        r == step_spec(state, event),
{
    match (state, event) {
        (Ensuring::Check(p), EnsureEvent::Exists(r)) => match r {
            Ok(true) => Ensuring::Finished(Ok(p)),
            Ok(false) => Ensuring::Create(p),
            Err(m) => Ensuring::Finished(Err(EnsureError::CheckExists(p, m))),
        },
        (Ensuring::Create(p), EnsureEvent::Created(r)) => match r {
            Ok(()) => Ensuring::Finished(Ok(p)),
            Err(m) => Ensuring::Finished(Err(EnsureError::Create(p, m))),
        },
        (s, _) => s,
    }
}

/// How many steps are left at most.
pub open spec fn steps_left(s: Ensuring) -> nat {
    match s {
        Ensuring::Check(_) => 2,
        Ensuring::Create(_) => 1,
        Ensuring::Finished(_) => 0,
    }
}

/// Whether an event is what comes of performing the step.
pub open spec fn answers(s: Ensuring, e: EnsureEvent) -> bool {
    match (s, e) {
        (Ensuring::Check(_), EnsureEvent::Exists(_)) => true,
        (Ensuring::Create(_), EnsureEvent::Created(_)) => true,
        _ => false,
    }
}

/// Law: a store directory that does not exist is created, and then used.
pub proof fn law_missing_directory_is_created(p: String)
    ensures
        step_spec(Ensuring::Check(p), EnsureEvent::Exists(Ok(false))) == Ensuring::Create(p),
        step_spec(Ensuring::Create(p), EnsureEvent::Created(Ok(()))) == Ensuring::Finished(Ok::<String, EnsureError>(p)),
{
}

/// Law: an event that answers the current step leads to a later step or to
/// the end, so the steps end after at most two events.
pub proof fn law_ensure_progress(s: Ensuring, e: EnsureEvent)
    requires
        answers(s, e),
    ensures
        steps_left(step_spec(s, e)) < steps_left(s),
{
}

} // verus!
