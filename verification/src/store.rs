//! The identity store's coordination protocol.  Concurrent invocations
//! share one record file; each reads it optimistically under a shared lock
//! and, only if it found no identity, escalates to an exclusive lock,
//! re-reads, and — if the record is still empty — becomes the single
//! invocation allowed to write the freshly obtained identifier.
//!
//! The protocol is a small state machine.  The shell around the library
//! owns the file handle and the locks; it asks [`Protocol::required_lock`]
//! which lock to hold, feeds every read's raw contents to
//! [`Protocol::observe`], and consults [`Protocol::prior_identity`] and
//! [`Protocol::must_write`] once the protocol has settled.  The ordering —
//! shared first, exclusive only after an empty shared read, the write only
//! while the exclusive lock is held — is forced by the state machine's
//! contracts rather than left to the caller.

use vstd::prelude::*;
use crate::record::{parse_record, record_spec, RecordError};

verus! {

#[derive(Clone, Copy, Debug, PartialEq, Eq, Structural)]
pub enum LockLevel {
    Shared,
    Exclusive,
}

/// One invocation's progress through read-with-escalation.
#[derive(Clone, Copy, Debug, PartialEq, Eq, Structural)]
pub enum Protocol {
    /// Nothing read yet; the next read happens under the shared lock.
    AwaitSharedRead,
    /// The shared read found no identity; the next read happens under the
    /// exclusive lock, serialised against any concurrent first writer.
    AwaitExclusiveRead,
    /// The shared read found an identity; no writer coordination needed.
    SettledFast { id: u64 },
    /// The exclusive re-read settled the matter: whatever it observed is
    /// the prior identity, and an empty observation licenses the write.
    SettledSlow { observed: Option<u64> },
}

impl Protocol {
    pub open spec fn is_settled(self) -> bool {
        match self {
            Protocol::AwaitSharedRead => false,
            Protocol::AwaitExclusiveRead => false,
            Protocol::SettledFast { .. } => true,
            Protocol::SettledSlow { .. } => true,
        }
    }

    /// The identity on record before this invocation, once settled.
    pub open spec fn spec_prior(self) -> Option<u64> {
        match self {
            Protocol::AwaitSharedRead => None,
            Protocol::AwaitExclusiveRead => None,
            Protocol::SettledFast { id } => Some(id),
            Protocol::SettledSlow { observed } => observed,
        }
    }

    /// Whether this invocation is the one allowed to perform the single
    /// write: only after the exclusive re-read still found the record empty.
    pub open spec fn spec_must_write(self) -> bool {
        match self {
            Protocol::SettledSlow { observed } => observed is None,
            _ => false,
        }
    }

    pub open spec fn spec_required_lock(self) -> Option<LockLevel> {
        match self {
            Protocol::AwaitSharedRead => Some(LockLevel::Shared),
            Protocol::AwaitExclusiveRead => Some(LockLevel::Exclusive),
            _ => None,
        }
    }

    pub fn new() -> (p: Protocol)
        ensures
            p == Protocol::AwaitSharedRead,
    {
        Protocol::AwaitSharedRead
    }

    /// The lock the shell must hold for the next read, or `None` once the
    /// protocol has settled.  Escalation is never skipped and never
    /// reversed: `Shared` strictly precedes `Exclusive`.
    pub fn required_lock(&self) -> (r: Option<LockLevel>)
        ensures
            r == self.spec_required_lock(),
    {
        match self {
            Protocol::AwaitSharedRead => Some(LockLevel::Shared),
            Protocol::AwaitExclusiveRead => Some(LockLevel::Exclusive),
            _ => None,
        }
    }

    /// Feeds the protocol the raw contents of one read of the record,
    /// performed under the lock that `required_lock` demanded.  A shared
    /// read that finds an identity settles immediately; one that finds the
    /// record empty escalates; the exclusive re-read settles either way.
    /// Corrupt contents fail the invocation and leave the state unchanged.
    pub fn observe(&mut self, contents: &str) -> (r: Result<(), RecordError>)
        requires
            !old(self).is_settled(),
        ensures
            match record_spec(contents@) {
                Err(e) => r == Err::<(), RecordError>(e) && *final(self) == *old(self),
                Ok(v) => r == Ok::<(), RecordError>(()) && *final(self) == (
                    match *old(self) {
                        Protocol::AwaitSharedRead => match v {
                            Some(id) => Protocol::SettledFast { id },
                            None => Protocol::AwaitExclusiveRead,
                        },
                        _ => Protocol::SettledSlow { observed: v },
                    }
                ),
            },
    {
        match parse_record(contents) {
            Err(e) => Err(e),
            Ok(v) => {
                match self {
                    Protocol::AwaitSharedRead => {
                        match v {
                            Some(id) => { *self = Protocol::SettledFast { id }; }
                            None => { *self = Protocol::AwaitExclusiveRead; }
                        }
                    }
                    _ => { *self = Protocol::SettledSlow { observed: v }; }
                }
                Ok(())
            }
        }
    }

    /// The identity found on record, once the protocol has settled.
    /// `None` means this invocation sends a fresh notification and owns
    /// the write.
    pub fn prior_identity(&self) -> (r: Option<u64>)
        requires
            self.is_settled(),
        ensures
            r == self.spec_prior(),
    {
        match self {
            Protocol::SettledFast { id } => Some(*id),
            Protocol::SettledSlow { observed } => *observed,
            _ => None,
        }
    }

    /// Whether this invocation must perform the record's single write.
    pub fn must_write(&self) -> (r: bool)
        requires
            self.is_settled(),
        ensures
            r == self.spec_must_write(),
    {
        match self {
            Protocol::SettledSlow { observed: None } => true,
            _ => false,
        }
    }
}

/// Law: the write is reachable only through the slow path.  An invocation
/// may write only when it escalated to the exclusive lock and the re-read
/// under that lock still found no identity; an invocation whose shared
/// read found an identity never writes, and a settled invocation that must
/// write has observed no prior identity.
pub proof fn lemma_write_once_requires_absence(p: Protocol)
    ensures
        p.spec_must_write() ==> p == (Protocol::SettledSlow { observed: None::<u64> }),
        p.spec_must_write() ==> p.spec_prior() is None,
        (p matches Protocol::SettledFast { .. }) ==> !p.spec_must_write(),
{
}

/// Model of the record cell under the serialised critical sections.
///
/// The operating system grants the exclusive lock to the escalated
/// invocations one at a time; while an invocation holds it, it re-reads
/// the cell and writes its fresh identifier only if the cell is empty.
/// `ids` lists the fresh identifiers of those invocations in the order the
/// lock was granted; the result is the cell's contents after all of them
/// ran.
pub open spec fn cell_after(rec: Option<u64>, ids: Seq<u64>) -> Option<u64>
    decreases ids.len(),
{
    if ids.len() == 0 {
        rec
    } else {
        cell_after(
            if rec is None { Some(ids[0]) } else { rec },
            ids.drop_first(),
        )
    }
}

/// What each serialised invocation observes when it re-reads the cell,
/// in lock-grant order.
pub open spec fn cell_observations(rec: Option<u64>, ids: Seq<u64>) -> Seq<Option<u64>>
    decreases ids.len(),
{
    if ids.len() == 0 {
        Seq::empty()
    } else {
        seq![rec] + cell_observations(
            if rec is None { Some(ids[0]) } else { rec },
            ids.drop_first(),
        )
    }
}

/// Once the cell holds an identity, every later invocation observes that
/// same identity and the cell never changes again.
pub proof fn lemma_cell_occupied_stable(x: u64, ids: Seq<u64>)
    ensures
        cell_after(Some(x), ids) == Some(x),
        cell_observations(Some(x), ids).len() == ids.len(),
        forall|i: int| 0 <= i < ids.len()
            ==> cell_observations(Some(x), ids)[i] == Some(x),
    decreases ids.len(),
{
    if ids.len() > 0 {
        lemma_cell_occupied_stable(x, ids.drop_first());
    }
}

/// Law: exactly one first writer.  Among any number of invocations that
/// run their exclusive critical sections against an initially empty
/// record, precisely the first observes no identity — and so performs the
/// single write — while every other invocation observes the first one's
/// identifier, which is also the record's final contents.
pub proof fn lemma_exactly_one_first_writer(ids: Seq<u64>)
    requires
        ids.len() > 0,
    ensures
        cell_observations(None::<u64>, ids).len() == ids.len(),
        cell_observations(None::<u64>, ids)[0] is None,
        forall|i: int| 1 <= i < ids.len()
            ==> cell_observations(None::<u64>, ids)[i] == Some(ids[0]),
        cell_after(None::<u64>, ids) == Some(ids[0]),
{
    lemma_cell_occupied_stable(ids[0], ids.drop_first());
    assert forall|i: int| 1 <= i < ids.len()
        implies cell_observations(None::<u64>, ids)[i] == Some(ids[0]) by {
        assert(cell_observations(None::<u64>, ids)[i]
            == cell_observations(Some(ids[0]), ids.drop_first())[i - 1]);
    }
}

} // verus!
