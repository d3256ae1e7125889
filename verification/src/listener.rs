//! Listener lifecycle state machines and accept-loop policy.
//!
//! The sockets themselves live outside the library; these types carry the
//! states and decisions the accept loops must follow: bind exactly once,
//! accept only after a successful bind, swallow transient accept errors and
//! back off on persistent ones.

use vstd::prelude::*;

verus! {

/// What binding and accepting can be blamed for.
#[derive(Debug, Copy, Clone, Eq, PartialEq, Structural)]
pub enum ListenError {
    /// `bind` was called a second time.
    BindTwice,
    /// `accept` was called before a successful `bind`.
    AcceptBeforeBind,
    /// `accept` was called a second time.
    AcceptTwice,
    /// No candidate listener could be bound.
    NoListenerAvailable,
}

/// How a listener presents itself once bound.
#[derive(Debug, Clone)]
pub struct ListenInfo {
    pub conn_string: String,
    pub transport: String,
    pub tls: bool,
}

impl ListenInfo {
    /// Record a new listen description.
    pub fn new(conn_string: String, transport: String, tls: bool) -> (r: ListenInfo)
        ensures
            r.conn_string == conn_string,
            r.transport == transport,
            r.tls == tls,
    {
        ListenInfo { conn_string, transport, tls }
    }

    /// The connection string.
    pub fn connection(&self) -> (r: &str)
        ensures
            r@ == self.conn_string@,
    {
        self.conn_string.as_str()
    }

    /// The transport name.
    pub fn transport(&self) -> (r: &str)
        ensures
            r@ == self.transport@,
    {
        self.transport.as_str()
    }

    /// Whether the transport is encrypted.
    pub fn is_encrypted(&self) -> (r: bool)
        ensures
            r == self.tls,
    {
        self.tls
    }
}

/// The error kinds the accept loop distinguishes.
#[derive(Debug, Copy, Clone, Eq, PartialEq, Structural)]
pub enum IoErrorKind {
    ConnectionRefused,
    ConnectionAborted,
    ConnectionReset,
    Other,
}

/// Transient accept errors need no backoff delay.
pub open spec fn spec_is_transient_error(e: IoErrorKind) -> bool {
    e is ConnectionRefused || e is ConnectionAborted || e is ConnectionReset
}

/// Whether an accept error is transient.
pub fn is_transient_error(e: IoErrorKind) -> (r: bool)
    ensures
        r == spec_is_transient_error(e),
{
    matches!(
        e,
        IoErrorKind::ConnectionRefused | IoErrorKind::ConnectionAborted
            | IoErrorKind::ConnectionReset
    )
}

/// What the accept loop does after a failed accept.
#[derive(Debug, Copy, Clone, Eq, PartialEq, Structural)]
pub enum AcceptAction {
    /// Try again at once.
    Continue,
    /// Wait this many milliseconds, then try again.
    Backoff(u64),
}

/// Decide the accept loop's next step after an error: transient failures
/// retry at once, anything else backs off for half a second.
pub fn accept_error_action(e: IoErrorKind) -> (r: AcceptAction)
    ensures
        spec_is_transient_error(e) ==> r == AcceptAction::Continue,
        !spec_is_transient_error(e) ==> r == AcceptAction::Backoff(500u64),
{
    if is_transient_error(e) {
        AcceptAction::Continue
    } else {
        AcceptAction::Backoff(500)
    }
}

/// The lifecycle of one bound socket: bind exactly once, then accept
/// exactly once, in that order.
pub struct TcpListenerState {
    pub bound: bool,
    pub accepting: bool,
    pub info: Option<ListenInfo>,
}

impl TcpListenerState {
    /// No socket bound yet.
    pub fn new() -> (r: TcpListenerState)
        ensures
            !r.bound,
            !r.accepting,
            r.info is None,
    {
        TcpListenerState { bound: false, accepting: false, info: None }
    }

    /// Record a successful bind. A second bind fails deterministically and
    /// changes nothing.
    pub fn bind(&mut self, info: ListenInfo) -> (r: Result<(), ListenError>)
        ensures
            (old(self).bound ==> r == Err::<(), ListenError>(ListenError::BindTwice) && *final(self)
                == *old(self)),
            (!old(self).bound ==> r == Ok::<(), ListenError>(()) && final(self).bound && final(self).accepting == old(self).accepting && final(self).info == Some(info)),
    {
        if self.bound {
            Err(ListenError::BindTwice)
        } else {
            self.bound = true;
            self.info = Some(info);
            Ok(())
        }
    }

    /// Enter the accept loop. Accepting before a bind, or a second time,
    /// fails deterministically and changes nothing.
    pub fn begin_accept(&mut self) -> (r: Result<(), ListenError>)
        ensures
            (!old(self).bound ==> r == Err::<(), ListenError>(ListenError::AcceptBeforeBind)
                && *final(self) == *old(self)),
            (old(self).bound && old(self).accepting ==> r == Err::<(), ListenError>(
                ListenError::AcceptTwice,
            ) && *final(self) == *old(self)),
            (old(self).bound && !old(self).accepting ==> r == Ok::<(), ListenError>(()) && final(self).accepting && final(self).bound == old(self).bound && final(self).info == old(self).info),
    {
        if !self.bound {
            Err(ListenError::AcceptBeforeBind)
        } else if self.accepting {
            Err(ListenError::AcceptTwice)
        } else {
            self.accepting = true;
            Ok(())
        }
    }

    /// The listen descriptions this listener reports: one once bound,
    /// none before.
    pub fn info(&self) -> (r: Option<&ListenInfo>)
        ensures
            (match r {
                Some(i) => self.info matches Some(inner) && i == &inner,
                None => self.info is None,
            }),
    {
        self.info.as_ref()
    }
}

/// A set of sub-listeners driven concurrently: `bind` binds all of them and
/// fails on the first failure; `accept` drives all of them and reports the
/// first failure.
pub struct ConcurrentListener {
    pub count: usize,
    pub bound: bool,
}

impl ConcurrentListener {
    /// An empty set.
    pub fn new() -> (r: ConcurrentListener)
        ensures
            r.count == 0,
            !r.bound,
    {
        ConcurrentListener { count: 0, bound: false }
    }

    /// Add one sub-listener; the result is its index.
    pub fn add(&mut self) -> (r: Result<usize, ListenError>)
        requires
            old(self).count < usize::MAX,
        ensures
            (!old(self).bound ==> r == Ok::<usize, ListenError>(old(self).count) && final(self).count == old(self).count + 1 && !final(self).bound),
            (old(self).bound ==> r == Err::<usize, ListenError>(ListenError::BindTwice) && *final(self) == *old(self)),
    {
        if self.bound {
            Err(ListenError::BindTwice)
        } else {
            let i = self.count;
            self.count = self.count + 1;
            Ok(i)
        }
    }

    /// Record the outcome of binding every sub-listener, in order: the set
    /// is bound exactly when every one succeeded, and the first failure is
    /// reported.
    pub fn bind(&mut self, outcomes: &Vec<bool>) -> (r: Result<(), usize>)
        requires
            outcomes@.len() == old(self).count,
        ensures
            (match r {
                Ok(()) => !old(self).bound && final(self).bound && forall|i: int|
                    0 <= i < outcomes@.len() ==> outcomes@[i],
                Err(i) => *final(self) == *old(self) && (old(self).bound || (i < outcomes@.len()
                    && !outcomes@[i as int] && forall|j: int| 0 <= j < i ==> outcomes@[j])),
            }),
            old(self).bound ==> r is Err,
    {
        if self.bound {
            return Err(0);
        }
        let mut i: usize = 0;
        while i < outcomes.len()
            invariant
                0 <= i <= outcomes@.len(),
                forall|j: int| 0 <= j < i ==> outcomes@[j],
            decreases outcomes@.len() - i,
        {
            if !outcomes[i] {
                return Err(i);
            }
            i = i + 1;
        }
        self.bound = true;
        Ok(())
    }

    /// The first sub-listener whose accept loop failed, if any: the whole
    /// set stops on it, and none of the others is to blame before it.
    pub fn first_accept_failure(&self, ok: &Vec<bool>) -> (r: Option<usize>)
        ensures
            (match r {
                Some(i) => i < ok@.len() && !ok@[i as int] && forall|j: int|
                    0 <= j < i ==> ok@[j],
                None => forall|j: int| 0 <= j < ok@.len() ==> ok@[j],
            }),
    {
        let mut i: usize = 0;
        while i < ok.len()
            invariant
                0 <= i <= ok@.len(),
                forall|j: int| 0 <= j < i ==> ok@[j],
            decreases ok@.len() - i,
        {
            if !ok[i] {
                return Some(i);
            }
            i = i + 1;
        }
        None
    }
}

/// A set of candidate sub-listeners tried in order: `bind` commits to the
/// first that binds; `accept` is valid once, only after that commitment.
pub struct FailoverListener {
    pub candidates: usize,
    pub cursor: usize,
    pub committed: Option<usize>,
    pub taken: bool,
}

impl FailoverListener {
    /// The cursor never passes the candidate count, and a commitment names
    /// a real candidate.
    pub open spec fn wf(self) -> bool {
        &&& self.cursor <= self.candidates
        &&& (self.committed matches Some(i) ==> i < self.candidates)
    }

    /// An empty candidate list.
    pub fn new() -> (r: FailoverListener)
        ensures
            r.candidates == 0,
            r.cursor == 0,
            r.committed is None,
            !r.taken,
            r.wf(),
    {
        FailoverListener { candidates: 0, cursor: 0, committed: None, taken: false }
    }

    /// Add one candidate; the result is its index.
    pub fn add(&mut self) -> (r: Result<usize, ListenError>)
        requires
            old(self).candidates < usize::MAX,
            old(self).wf(),
        ensures
            final(self).wf(),
            (old(self).committed is None && old(self).cursor == 0 ==> r == Ok::<
                usize,
                ListenError,
            >(old(self).candidates) && final(self).candidates == old(self).candidates + 1),
            (!(old(self).committed is None && old(self).cursor == 0) ==> r == Err::<
                usize,
                ListenError,
            >(ListenError::BindTwice) && *final(self) == *old(self)),
    {
        if self.committed.is_none() && self.cursor == 0 {
            let i = self.candidates;
            self.candidates = self.candidates + 1;
            Ok(i)
        } else {
            Err(ListenError::BindTwice)
        }
    }

    /// The next candidate to try binding, in registration order; none when
    /// the list is exhausted or a bind already committed.
    pub fn next_candidate(&self) -> (r: Option<usize>)
        requires
            self.wf(),
        ensures
            (match r {
                Some(i) => self.committed is None && i == self.cursor && i < self.candidates,
                None => self.committed is Some || self.cursor == self.candidates,
            }),
    {
        if self.committed.is_none() && self.cursor < self.candidates {
            Some(self.cursor)
        } else {
            None
        }
    }

    /// Record that binding the current candidate failed; the next one will
    /// be tried.
    pub fn record_failure(&mut self)
        requires
            old(self).wf(),
            old(self).committed is None,
            old(self).cursor < old(self).candidates,
        ensures
            final(self).cursor == old(self).cursor + 1,
            final(self).committed is None,
            final(self).candidates == old(self).candidates,
            final(self).taken == old(self).taken,
            final(self).wf(),
    {
        self.cursor = self.cursor + 1;
    }

    /// Record that binding the current candidate succeeded: the listener
    /// commits to it, and later candidates are never tried.
    pub fn record_success(&mut self)
        requires
            old(self).wf(),
            old(self).committed is None,
            old(self).cursor < old(self).candidates,
        ensures
            final(self).committed == Some(old(self).cursor),
            final(self).cursor == old(self).cursor,
            final(self).candidates == old(self).candidates,
            final(self).taken == old(self).taken,
            final(self).wf(),
    {
        self.committed = Some(self.cursor);
    }

    /// Enter the accept loop on the committed candidate. Accepting before a
    /// successful bind, or a second time, fails deterministically.
    pub fn begin_accept(&mut self) -> (r: Result<usize, ListenError>)
        requires
            old(self).wf(),
        ensures
            final(self).wf(),
            (match old(self).committed {
                None => r == Err::<usize, ListenError>(ListenError::AcceptBeforeBind) && *final(self) == *old(self),
                Some(i) => if old(self).taken {
                    r == Err::<usize, ListenError>(ListenError::AcceptTwice) && *final(self)
                        == *old(self)
                } else {
                    r == Ok::<usize, ListenError>(i) && final(self).taken && final(self).committed
                        == old(self).committed && final(self).cursor == old(self).cursor && final(self).candidates == old(self).candidates
                },
            }),
    {
        match self.committed {
            None => Err(ListenError::AcceptBeforeBind),
            Some(i) => {
                if self.taken {
                    Err(ListenError::AcceptTwice)
                } else {
                    self.taken = true;
                    Ok(i)
                }
            },
        }
    }
}

} // verus!
