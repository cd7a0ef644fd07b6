//! Sessions: the one client at a time that may drive the machine.

use vstd::prelude::*;
use vstd::string::*;

use crate::error::SessionError;
use crate::numeral::numeral_value;
use crate::text::{decimal, lemma_decimal_reads_back, push_decimal, same_text};

verus! {

/// The identifier of a session. Clients pass it on as they got it.
#[derive(Debug)]
pub struct SessionId {
    pub text: String,
}

impl View for SessionId {
    type V = Seq<char>;

    open spec fn view(&self) -> Seq<char> {
        self.text@
    }
}

impl Clone for SessionId {
    fn clone(&self) -> (copy: SessionId)
        ensures
            copy@ == self@,
    {
        SessionId { text: self.text.clone() }
    }
}

impl SessionId {
    /// Decides whether two identifiers are the same.
    pub fn same(&self, other: &SessionId) -> (same: bool)
        ensures
            same == (self@ == other@),
    {
        same_text(self.text.as_str(), other.text.as_str())
    }
}

/// The slot that holds the session of a machine, if one is active, and the
/// count of the sessions that were started on it.
#[derive(Debug)]
pub struct SessionManager {
    current: Option<SessionId>,
    issued: u64,
}

impl SessionManager {
    /// The identifier of the active session, if there is one.
    pub closed spec fn active(&self) -> Option<Seq<char>> {
        match self.current {
            Some(id) => Some(id@),
            None => None,
        }
    }

    /// The number of sessions started so far, counted modulo 2^64.
    pub closed spec fn issued(&self) -> u64 {
        self.issued
    }

    /// The count that follows `n`.
    pub open spec fn next_count(n: u64) -> u64 {
        if n == u64::MAX {
            0
        } else {
            (n + 1) as u64
        }
    }

    /// A manager of a machine that no session holds.
    pub fn new() -> (manager: SessionManager)
        ensures
            manager.active() is None,
            manager.issued() == 0,
    {
        SessionManager { current: None, issued: 0 }
    }

    /// Whether a session is active.
    pub fn is_active(&self) -> (active: bool)
        ensures
            active == self.active() is Some,
    {
        self.current.is_some()
    }

    /// Starts a session, unless one is active: then that one stays and the
    /// call fails. The new session is named by the count of those before it.
    pub fn start(&mut self) -> (r: Result<SessionId, SessionError>)
        ensures
            old(self).active() is Some ==> (r matches Err(SessionError::AlreadyActive)) && *final(self)
                == *old(self),
            old(self).active() is None ==> r is Ok && r->Ok_0@ == decimal(old(self).issued() as nat)
                && final(self).active() == Some(r->Ok_0@) && final(self).issued()
                == Self::next_count(old(self).issued()),
    {
        if self.current.is_some() {
            return Err(SessionError::AlreadyActive);
        }
        let mut text: String = String::new();
        push_decimal(&mut text, self.issued);
        assert(text@ =~= decimal(self.issued as nat));
        let id = SessionId { text };
        self.current = Some(id.clone());
        self.issued = if self.issued == u64::MAX {
            0
        } else {
            self.issued + 1
        };
        Ok(id)
    }

    /// Checks that `id` names the active session.
    pub fn check(&self, id: &SessionId) -> (r: Result<(), SessionError>)
        ensures
            r == Self::verdict(self.active(), id@),
    {
        match &self.current {
            None => Err(SessionError::NoSession),
            Some(current) => if current.same(id) {
                Ok(())
            } else {
                Err(SessionError::Mismatch)
            },
        }
    }

    /// What is said to a caller that names the session `id` while `active`
    /// is the one that is active.
    pub open spec fn verdict(active: Option<Seq<char>>, id: Seq<char>) -> Result<(), SessionError> {
        match active {
            None => Err(SessionError::NoSession),
            Some(current) => if current == id {
                Ok(())
            } else {
                Err(SessionError::Mismatch)
            },
        }
    }

    /// Ends the session `id`. Where it is not the active one, nothing
    /// changes.
    pub fn end(&mut self, id: &SessionId) -> (r: Result<(), SessionError>)
        ensures
            r == Self::verdict(old(self).active(), id@),
            r is Ok ==> final(self).active() is None,
            r is Err ==> *final(self) == *old(self),
            final(self).issued() == old(self).issued(),
    {
        match self.check(id) {
            Ok(()) => {
                self.current = None;
                Ok(())
            },
            Err(fault) => Err(fault),
        }
    }
}

/// Sessions with different counts have different identifiers. So the
/// identifier of a session differs from those of the 2^64 - 1 sessions
/// before it.
pub proof fn lemma_identifiers_differ(a: u64, b: u64)
    requires
        a != b,
    ensures
        decimal(a as nat) != decimal(b as nat),
{
    lemma_decimal_reads_back(a as nat, u64::MAX as nat);
    lemma_decimal_reads_back(b as nat, u64::MAX as nat);
    assert(numeral_value(decimal(a as nat), 10, u64::MAX as nat) != numeral_value(
        decimal(b as nat),
        10,
        u64::MAX as nat,
    ));
}

} // verus!
