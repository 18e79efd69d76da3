//! Effects on the file system that evaluation asks for, and the journal of
//! their outcomes.
//!
//! Evaluation does not touch the file system.  When it needs an effect, it
//! looks for the outcome in the journal at the position of the next effect;
//! if the journal does not have it yet, evaluation stops and names the effect.
//! The caller performs it, records the outcome and evaluates again from the
//! start: the same effects are asked for in the same order, and each is
//! performed once.

use vstd::prelude::*;

use crate::fs_entry::{FsEntry, FsEntryV};

verus! {

/// An effect on the file system.
#[derive(Debug)]
pub enum Request {
    /// Read the file at the path as text.
    ReadFile(String),
    /// Write the text to the path, then inspect the path.
    WriteFile { path: String, contents: String },
    /// Inspect what is at the path, to hash it.
    Inspect(String),
}

/// The outcome of an effect.
#[derive(Debug)]
pub enum Response {
    /// The text read, or the message of the error.
    Text(Result<String, String>),
    /// What is at the path after writing, or the message of the error.
    Written(Result<FsEntry, String>),
    /// What is at the path.
    Inspected(FsEntry),
}

pub enum RequestV {
    ReadFile(Seq<char>),
    WriteFile(Seq<char>, Seq<char>),
    Inspect(Seq<char>),
}

pub enum ResponseV {
    Text(Result<Seq<char>, Seq<char>>),
    Written(Result<FsEntryV, Seq<char>>),
    Inspected(FsEntryV),
}

impl View for Request {
    type V = RequestV;

    open spec fn view(&self) -> RequestV {
        match self {
            Request::ReadFile(p) => RequestV::ReadFile(p@),
            Request::WriteFile { path, contents } => RequestV::WriteFile(path@, contents@),
            Request::Inspect(p) => RequestV::Inspect(p@),
        }
    }
}

impl View for Response {
    type V = ResponseV;

    open spec fn view(&self) -> ResponseV {
        match self {
            Response::Text(Ok(s)) => ResponseV::Text(Ok(s@)),
            Response::Text(Err(e)) => ResponseV::Text(Err(e@)),
            Response::Written(Ok(t)) => ResponseV::Written(Ok(t@)),
            Response::Written(Err(e)) => ResponseV::Written(Err(e@)),
            Response::Inspected(t) => ResponseV::Inspected(t@),
        }
    }
}

impl Request {
    /// Whether two requests ask for the same effect.
    pub fn same_as(&self, other: &Request) -> (r: bool)
        ensures
            r == (self@ == other@),
    {
        match self {
            Request::ReadFile(a) => match other {
                Request::ReadFile(b) => a.eq(b),
                _ => false,
            },
            Request::WriteFile { path: p1, contents: c1 } => match other {
                Request::WriteFile { path: p2, contents: c2 } => {
                    let same_path = p1.eq(p2);
                    let same_contents = c1.eq(c2);
                    same_path && same_contents
                },
                _ => false,
            },
            Request::Inspect(a) => match other {
                Request::Inspect(b) => a.eq(b),
                _ => false,
            },
        }
    }
}

/// The outcomes of the effects performed so far, in order.
pub struct Journal {
    entries: Vec<(Request, Response)>,
}

pub open spec fn journal_entries_view(s: Seq<(Request, Response)>) -> Seq<(RequestV, ResponseV)> {
    s.map_values(|e: (Request, Response)| (e.0@, e.1@))
}

impl View for Journal {
    type V = Seq<(RequestV, ResponseV)>;

    closed spec fn view(&self) -> Seq<(RequestV, ResponseV)> {
        journal_entries_view(self.entries@)
    }
}

/// The outcome that the journal holds for the effect at position `cursor`, if
/// it holds one and it was recorded for `request`.
pub open spec fn recorded(journal: Seq<(RequestV, ResponseV)>, cursor: nat, request: RequestV) -> Option<ResponseV> {
    if cursor < journal.len() && journal[cursor as int].0 == request {
        Some(journal[cursor as int].1)
    } else {
        None
    }
}

/// Whether an outcome is of the kind that the effect has.
pub open spec fn answers(request: RequestV, response: ResponseV) -> bool {
    match (request, response) {
        (RequestV::ReadFile(_), ResponseV::Text(_)) => true,
        (RequestV::WriteFile(_, _), ResponseV::Written(_)) => true,
        (RequestV::Inspect(_), ResponseV::Inspected(_)) => true,
        _ => false,
    }
}

/// Whether the journal holds, at position `cursor`, an outcome of the kind
/// that `request` has, recorded for it.
pub open spec fn answered_at(journal: Seq<(RequestV, ResponseV)>, cursor: nat, request: RequestV) -> bool {
    match recorded(journal, cursor, request) {
        Some(response) => answers(request, response),
        None => false,
    }
}

impl Journal {
    /// An empty journal.
    pub fn new() -> (r: Journal)
        ensures
            r@ == Seq::<(RequestV, ResponseV)>::empty(),
    {
        let r = Journal { entries: Vec::new() };
        assert(r@ =~= Seq::<(RequestV, ResponseV)>::empty());
        r
    }

    /// The number of outcomes recorded.
    pub fn len(&self) -> (r: usize)
        ensures
            r == self@.len(),
    {
        self.entries.len()
    }

    /// Records the outcome of the next effect.
    pub fn record(&mut self, request: Request, response: Response)
        ensures
            final(self)@ == old(self)@.push((request@, response@)),
    {
        self.entries.push((request, response));
        assert(self@ =~= old(self)@.push((request@, response@)));
    }

    /// The outcome recorded for `request` at position `cursor`, if any.
    pub fn recorded(&self, cursor: usize, request: &Request) -> (r: Option<&Response>)
        ensures
            match recorded(self@, cursor as nat, request@) {
                Some(resp) => r is Some && r.unwrap()@ == resp,
                None => r is None,
            },
            self@.len() <= usize::MAX,
    {
        if cursor < self.entries.len() && self.entries[cursor].0.same_as(request) {
            Some(&self.entries[cursor].1)
        } else {
            None
        }
    }
}

} // verus!
