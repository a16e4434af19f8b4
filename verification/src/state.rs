//! The completion supervisor: one instance guards one asynchronous operation
//! against silence and reports its outcome exactly once.

use crate::errors::{outcome_view, ErrorClass, ErrorKind, ErrorView};
use vstd::prelude::*;

verus! {

/// Deadline, in milliseconds, after which an operation that has reported
/// nothing is treated as a transient failure.
pub const DEFAULT_DEADLINE_MS: u64 = 30000;

/// The outcome a supervisor hands to its owner.
#[derive(Debug)]
pub enum CompletionStatus {
    /// Processed successfully.
    Success,
    /// A transient error occurred; the count is the number of attempts made so far.
    Retry(ErrorKind, usize),
    /// An unrecoverable error occurred.
    Abort(ErrorKind),
}

/// Mathematical value of a [`CompletionStatus`].
pub enum StatusView {
    Success,
    Retry(ErrorView, nat),
    Abort(ErrorView),
}

impl View for CompletionStatus {
    type V = StatusView;

    open spec fn view(&self) -> StatusView {
        match self {
            CompletionStatus::Success => StatusView::Success,
            CompletionStatus::Retry(e, n) => StatusView::Retry(e@, *n as nat),
            CompletionStatus::Abort(e) => StatusView::Abort(e@),
        }
    }
}

impl Clone for CompletionStatus {
    fn clone(&self) -> (copy: Self)
        ensures
            copy@ == self@,
    {
        match self {
            CompletionStatus::Success => CompletionStatus::Success,
            CompletionStatus::Retry(e, n) => CompletionStatus::Retry(e.clone(), *n),
            CompletionStatus::Abort(e) => CompletionStatus::Abort(e.clone()),
        }
    }
}

/// What can reach a supervisor: one of the three reports of the guarded
/// operation, or the expiry of the deadline.
pub enum Signal {
    Success,
    Retry(ErrorView),
    Abort(ErrorView),
    Timeout,
}

/// The failure a supervisor reports when its deadline passes in silence.
pub open spec fn timeout_cause() -> ErrorView {
    ErrorView {
        class: ErrorClass::Recoverable,
        reason: "Failed to call CompletionHandler within timeout"@,
    }
}

/// Mathematical value of a [`CompletionHandler`].
pub struct HandlerView {
    /// Attempts made before the guarded one.
    pub tries: nat,
    /// Deadline of the guarded operation, in milliseconds.
    pub deadline_ms: nat,
    /// Whether an outcome has been reported already.
    pub settled: bool,
}

impl HandlerView {
    /// The outcome that a signal stands for, seen from a supervisor that
    /// carries `self.tries`.
    pub open spec fn status_for(self, signal: Signal) -> StatusView {
        match signal {
            Signal::Success => StatusView::Success,
            Signal::Retry(cause) => StatusView::Retry(cause, self.tries + 1),
            Signal::Abort(cause) => StatusView::Abort(cause),
            Signal::Timeout => StatusView::Retry(timeout_cause(), self.tries + 1),
        }
    }

    /// What the supervisor hands to its owner when `signal` arrives: the
    /// outcome while it is pending, nothing once it has settled.
    pub open spec fn emits(self, signal: Signal) -> Option<StatusView> {
        if self.settled {
            None
        } else {
            Some(self.status_for(signal))
        }
    }

    /// The supervisor after any signal: settled, all else unchanged.
    pub open spec fn settle(self) -> HandlerView {
        HandlerView { settled: true, ..self }
    }

    /// Every outcome handed to the owner while `signals` arrive in order.
    pub open spec fn emitted(self, signals: Seq<Signal>) -> Seq<StatusView>
        decreases signals.len(),
    {
        if signals.len() == 0 {
            Seq::empty()
        } else {
            let rest = self.settle().emitted(signals.drop_first());
            match self.emits(signals[0]) {
                Some(status) => seq![status] + rest,
                None => rest,
            }
        }
    }
}

/// Guards one in-flight operation: carries the number of attempts already
/// made and turns the first signal it receives into the outcome for its owner.
/// A further attempt gets a supervisor of its own.
#[derive(Debug)]
pub struct CompletionHandler {
    tries: usize,
    deadline_ms: u64,
    settled: bool,
}

impl View for CompletionHandler {
    type V = HandlerView;

    closed spec fn view(&self) -> HandlerView {
        HandlerView {
            tries: self.tries as nat,
            deadline_ms: self.deadline_ms as nat,
            settled: self.settled,
        }
    }
}

impl CompletionHandler {
    /// The attempt count can still be incremented.
    pub open spec fn wf(&self) -> bool {
        self@.tries < usize::MAX
    }

    /// A pending supervisor for an operation that follows `tries` earlier
    /// attempts, with the default deadline.
    pub fn new(tries: usize) -> (handler: CompletionHandler)
        requires
            tries < usize::MAX,
        ensures
            handler.wf(),
            handler@ == (HandlerView {
                tries: tries as nat,
                deadline_ms: DEFAULT_DEADLINE_MS as nat,
                settled: false,
            }),
    {
        CompletionHandler { tries, deadline_ms: DEFAULT_DEADLINE_MS, settled: false }
    }

    /// A pending supervisor with a deadline of its own.
    pub fn with_deadline(tries: usize, deadline_ms: u64) -> (handler: CompletionHandler)
        requires
            tries < usize::MAX,
        ensures
            handler.wf(),
            handler@ == (HandlerView {
                tries: tries as nat,
                deadline_ms: deadline_ms as nat,
                settled: false,
            }),
    {
        CompletionHandler { tries, deadline_ms, settled: false }
    }

    /// Attempts made before the guarded one.
    pub fn tries(&self) -> (n: usize)
        ensures
            n == self@.tries,
    {
        self.tries
    }

    /// The time the guarded operation is given, in milliseconds.
    pub fn deadline_ms(&self) -> (ms: u64)
        ensures
            ms == self@.deadline_ms,
    {
        self.deadline_ms
    }

    /// Whether no outcome has been reported yet.
    pub fn is_pending(&self) -> (b: bool)
        ensures
            b == !self@.settled,
    {
        !self.settled
    }

    /// The guarded operation succeeded.
    pub fn success(&mut self) -> (status: Option<CompletionStatus>)
        ensures
            final(self)@ == old(self)@.settle(),
            match status {
                Some(s) => old(self)@.emits(Signal::Success) == Some(s@),
                None => old(self)@.emits(Signal::Success) is None,
            },
    {
        if self.settled {
            return None;
        }
        self.settled = true;
        Some(CompletionStatus::Success)
    }

    /// The guarded operation failed in a way that allows another attempt.
    pub fn retry(&mut self, e: ErrorKind) -> (status: Option<CompletionStatus>)
        requires
            old(self).wf(),
        ensures
            final(self)@ == old(self)@.settle(),
            match status {
                Some(s) => old(self)@.emits(Signal::Retry(e@)) == Some(s@),
                None => old(self)@.emits(Signal::Retry(e@)) is None,
            },
    {
        if self.settled {
            return None;
        }
        self.settled = true;
        Some(CompletionStatus::Retry(e, self.tries + 1))
    }

    /// The guarded operation failed for good.
    pub fn abort(&mut self, e: ErrorKind) -> (status: Option<CompletionStatus>)
        ensures
            final(self)@ == old(self)@.settle(),
            match status {
                Some(s) => old(self)@.emits(Signal::Abort(e@)) == Some(s@),
                None => old(self)@.emits(Signal::Abort(e@)) is None,
            },
    {
        if self.settled {
            return None;
        }
        self.settled = true;
        Some(CompletionStatus::Abort(e))
    }

    /// The deadline passed: a supervisor that is still pending reports a
    /// retry of its own making, as if the operation had failed transiently.
    pub fn on_timeout(&mut self) -> (status: Option<CompletionStatus>)
        requires
            old(self).wf(),
        ensures
            final(self)@ == old(self)@.settle(),
            match status {
                Some(s) => old(self)@.emits(Signal::Timeout) == Some(s@),
                None => old(self)@.emits(Signal::Timeout) is None,
            },
    {
        if self.settled {
            return None;
        }
        self.settled = true;
        Some(
            CompletionStatus::Retry(
                ErrorKind::recoverable("Failed to call CompletionHandler within timeout"),
                self.tries + 1,
            ),
        )
    }

    /// Classifies the result of the guarded operation: a prediction is a
    /// success, an unrecoverable failure aborts, and every other failure asks
    /// for another attempt.
    pub fn report(&mut self, outcome: Result<bool, ErrorKind>) -> (status: Option<
        CompletionStatus,
    >)
        requires
            old(self).wf(),
        ensures
            final(self)@ == old(self)@.settle(),
            match status {
                Some(s) => old(self)@.emits(signal_of(outcome_view(outcome))) == Some(s@),
                None => old(self)@.emits(signal_of(outcome_view(outcome))) is None,
            },
    {
        match outcome {
            Ok(_) => self.success(),
            Err(e) => {
                if e.is_retryable() {
                    self.retry(e)
                } else {
                    self.abort(e)
                }
            },
        }
    }
}

/// The signal that the result of a guarded prediction amounts to: a
/// prediction is a success, an unrecoverable failure aborts, and any other
/// failure asks for another attempt.
pub open spec fn signal_of(outcome: Result<bool, ErrorView>) -> Signal {
    match outcome {
        Ok(_) => Signal::Success,
        Err(e) => if e.retryable() {
            Signal::Retry(e)
        } else {
            Signal::Abort(e)
        },
    }
}

/// A settled supervisor hands out nothing, whatever arrives.
pub proof fn lemma_settled_is_silent(h: HandlerView, signals: Seq<Signal>)
    requires
        h.settled,
    ensures
        h.emitted(signals) == Seq::<StatusView>::empty(),
    decreases signals.len(),
{
    if signals.len() > 0 {
        assert(h.settle() == h);
        lemma_settled_is_silent(h, signals.drop_first());
    }
}

/// Exactly one outcome per supervisor: of any signals that reach a pending
/// supervisor, the first alone is turned into an outcome, and every later
/// one is ignored.
pub proof fn lemma_first_signal_decides(h: HandlerView, signals: Seq<Signal>)
    requires
        !h.settled,
        signals.len() > 0,
    ensures
        h.emitted(signals) == seq![h.status_for(signals[0])],
{
    lemma_settled_is_silent(h.settle(), signals.drop_first());
}

/// A deadline that passes before any report yields exactly one retry, made
/// by the supervisor itself with the attempt count incremented; whatever
/// arrives late yields nothing more.
pub proof fn lemma_timeout_synthesizes_retry(h: HandlerView, late: Seq<Signal>)
    requires
        !h.settled,
    ensures
        h.emitted(seq![Signal::Timeout] + late) == seq![
            StatusView::Retry(timeout_cause(), h.tries + 1),
        ],
{
    let signals = seq![Signal::Timeout] + late;
    assert(signals[0] == Signal::Timeout);
    lemma_first_signal_decides(h, signals);
}

/// No sequence of signals makes a supervisor report twice.
pub proof fn lemma_at_most_one_outcome(h: HandlerView, signals: Seq<Signal>)
    ensures
        h.emitted(signals).len() <= 1,
{
    if h.settled {
        lemma_settled_is_silent(h, signals);
    } else if signals.len() > 0 {
        lemma_first_signal_decides(h, signals);
    }
}

} // verus!
