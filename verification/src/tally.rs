//! The tally of a run: which submissions have ended, and how.

use crate::errors::{outcome_view, ErrorClass, ErrorKind, ErrorView};
use vstd::prelude::*;

verus! {

/// `tickets` with `ticket` among them, once.
pub open spec fn noted(tickets: Seq<u64>, ticket: u64) -> Seq<u64> {
    if tickets.contains(ticket) {
        tickets
    } else {
        tickets.push(ticket)
    }
}

/// Mathematical value of a [`Tally`].
pub struct TallyView {
    /// The number of submissions of the run.
    pub path_count: nat,
    /// The tickets that got a prediction.
    pub ok: Seq<u64>,
    /// The tickets that ended with an unrecoverable failure.
    pub aborted: Seq<u64>,
    /// The tickets that reported any other failure.
    pub retried: Seq<u64>,
}

impl TallyView {
    /// The tally after the submission with ticket `sink` reported `result`.
    pub open spec fn recorded(self, sink: u64, result: Result<bool, ErrorView>) -> TallyView {
        match result {
            Ok(_) => TallyView { ok: noted(self.ok, sink), ..self },
            Err(e) => if e.class == ErrorClass::Unrecoverable {
                TallyView { aborted: noted(self.aborted, sink), ..self }
            } else {
                TallyView { retried: noted(self.retried, sink), ..self }
            },
        }
    }

    /// The run is over when every submission has got a prediction or has
    /// ended for good.
    pub open spec fn complete(self) -> bool {
        self.ok.len() + self.aborted.len() == self.path_count
    }
}

/// Counts the submissions of a run by how they ended.
#[derive(Debug)]
pub struct Tally {
    path_count: usize,
    ok: Vec<u64>,
    aborted: Vec<u64>,
    retried: Vec<u64>,
}

impl View for Tally {
    type V = TallyView;

    closed spec fn view(&self) -> TallyView {
        TallyView {
            path_count: self.path_count as nat,
            ok: self.ok@,
            aborted: self.aborted@,
            retried: self.retried@,
        }
    }
}

/// Notes `ticket` in `tickets`, unless it is there already.
fn note(tickets: &mut Vec<u64>, ticket: u64)
    ensures
        final(tickets)@ == noted(old(tickets)@, ticket),
{
    let mut i: usize = 0;
    while i < tickets.len()
        invariant
            i <= tickets.len(),
            tickets@ == old(tickets)@,
            forall|k: int| 0 <= k < i ==> tickets@[k] != ticket,
        decreases tickets.len() - i,
    {
        if tickets[i] == ticket {
            return ;
        }
        i = i + 1;
    }
    tickets.push(ticket);
}

impl Tally {
    /// An empty tally for a run of `path_count` submissions.
    pub fn new(path_count: usize) -> (tally: Tally)
        ensures
            tally@ == (TallyView {
                path_count: path_count as nat,
                ok: Seq::empty(),
                aborted: Seq::empty(),
                retried: Seq::empty(),
            }),
    {
        Tally { path_count, ok: Vec::new(), aborted: Vec::new(), retried: Vec::new() }
    }

    /// Records what the submission with the ticket `sink` reported.
    pub fn record(&mut self, sink: u64, result: &Result<bool, ErrorKind>)
        ensures
            final(self)@ == old(self)@.recorded(sink, outcome_view(*result)),
    {
        match result {
            Ok(_) => note(&mut self.ok, sink),
            Err(e) => {
                if e.is_retryable() {
                    note(&mut self.retried, sink)
                } else {
                    note(&mut self.aborted, sink)
                }
            },
        }
    }

    /// The number of submissions that got a prediction.
    pub fn ok_count(&self) -> (n: usize)
        ensures
            n == self@.ok.len(),
    {
        self.ok.len()
    }

    /// The number of submissions that ended with an unrecoverable failure.
    pub fn aborted_count(&self) -> (n: usize)
        ensures
            n == self@.aborted.len(),
    {
        self.aborted.len()
    }

    /// The number of submissions that reported another failure.
    pub fn retried_count(&self) -> (n: usize)
        ensures
            n == self@.retried.len(),
    {
        self.retried.len()
    }

    /// Whether the run is over.
    pub fn is_complete(&self) -> (done: bool)
        ensures
            done == self@.complete(),
    {
        self.ok.len() <= self.path_count && self.path_count - self.ok.len() == self.aborted.len()
    }
}

} // verus!
