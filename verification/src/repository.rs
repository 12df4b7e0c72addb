//! The event-sourced repository: loading and saving aggregate roots.
//!
//! Loading replays an account's full event stream through the aggregate's
//! transition function; saving appends the root's uncommitted events with an
//! optimistic version check, so that a concurrent writer is detected rather
//! than overwritten.

use vstd::prelude::*;

use crate::aggregate::{messages, root_wf, spec_fold, Envelope, Root};
use crate::domain::{AccountView, BankAccountError, TransactionEvent};
use crate::store::{
    persisted_of, spec_last_version, store_wf, stream_messages, stream_seq, Appender, Check, Persisted,
    ConflictError, InMemory, Streamer, VersionSelect,
};

verus! {

/// Everything loading an aggregate can fail with.
#[derive(Clone, Copy, Debug, PartialEq, Eq, Structural)]
pub enum GetError {
    /// The aggregate has no event stream: it was never opened.
    NotFound,
    /// The stream exists but does not replay: the log is corrupt.
    Internal,
}

/// Everything saving an aggregate can fail with.
#[derive(Clone, Copy, Debug, PartialEq, Eq, Structural)]
pub enum SaveError {
    /// Another writer advanced the stream since this root was loaded;
    /// nothing was written.
    Conflict(ConflictError),
    /// The store failed internally; nothing was written.
    Internal,
}

/// Read access to aggregate roots.
pub trait Getter {
    /// Loads the root with the given id by replaying its event stream.
    fn get(&self, id: &u16) -> Result<Root, GetError>;
}

/// Write access to aggregate roots.
pub trait Saver {
    /// Persists the root's uncommitted events. The root must be well formed;
    /// it stays so, with its uncommitted buffer consumed.
    fn save(&mut self, root: &mut Root) -> Result<(), SaveError>
        requires
            root_wf(*old(root)),
    ;
}

/// A repository: a getter and a saver over the same aggregates.
pub trait Repository: Getter + Saver {

}

/// An event-sourced repository over the in-memory event store.
#[derive(Debug)]
pub struct EventSourced {
    /// The store holding every account's event stream.
    pub store: InMemory,
}

impl From<InMemory> for EventSourced {
    /// Wraps an event store.
    fn from(store: InMemory) -> (r: EventSourced) {
        EventSourced { store }
    }
}

impl vstd::std_specs::convert::FromSpecImpl<InMemory> for EventSourced {
    open spec fn obeys_from_spec() -> bool {
        true
    }

    open spec fn from_spec(store: InMemory) -> EventSourced {
        EventSourced { store }
    }
}

impl Getter for EventSourced {
    /// Loads an account root by replaying its full event stream. An absent
    /// or empty stream is `NotFound`; a stream that does not replay is
    /// corrupt and reported as `Internal`; otherwise the root carries
    /// exactly the replayed state, the stream's length as its version, and
    /// an empty uncommitted buffer.
    fn get(&self, id: &u16) -> (r: Result<Root, GetError>)
        ensures
            match r {
                Ok(root) => {
                    &&& spec_fold(stream_messages(self.store, *id)) == Ok::<
                        Option<AccountView>,
                        BankAccountError,
                    >(Some(root.aggregate@))
                    &&& stream_messages(self.store, *id).len() > 0
                    &&& root.version == stream_messages(self.store, *id).len()
                    &&& root.recorded_events@.len() == 0
                    &&& root.history@ == stream_messages(self.store, *id)
                    &&& root_wf(root)
                },
                Err(GetError::NotFound) => stream_messages(self.store, *id).len() == 0,
                Err(GetError::Internal) => spec_fold(stream_messages(self.store, *id)) is Err,
            },
    {
        let persisted = self.store.stream(id, VersionSelect::All);
        let mut events: Vec<Envelope<TransactionEvent>> = Vec::new();
        let mut i: usize = 0;
        while i < persisted.len()
            invariant
                i <= persisted@.len(),
                persisted@ == stream_seq(self.store, *id),
                events@ =~= persisted@.take(i as int).map_values(
                    |p: Persisted<u16, TransactionEvent>| p.event,
                ),
            decreases persisted@.len() - i,
        {
            events.push(persisted[i].event);
            proof {
                assert(persisted@.take(i + 1).map_values(|p: Persisted<u16, TransactionEvent>| p.event) =~= persisted@
                    .take(i as int).map_values(|p: Persisted<u16, TransactionEvent>| p.event).push(
                    persisted@[i as int].event,
                ));
            }
            i = i + 1;
        }
        proof {
            assert(persisted@.take(persisted@.len() as int) =~= persisted@);
            assert(messages(events@) =~= stream_messages(self.store, *id));
        }
        match Root::rehydrate(&events) {
            Ok(Some(root)) => Ok(root),
            Ok(None) => Err(GetError::NotFound),
            Err(_) => Err(GetError::Internal),
        }
    }
}

impl Saver for EventSourced {
    /// Persists the root's uncommitted events, demanding that the stream
    /// still be at the version the root grew from. The uncommitted buffer is
    /// consumed whatever the outcome. With no uncommitted events the store
    /// is left untouched; on a version conflict or an internal store failure
    /// nothing is written.
    fn save(&mut self, root: &mut Root) -> (r: Result<(), SaveError>)
        ensures
            root_wf(*final(root)),
            final(root).aggregate == old(root).aggregate,
            final(root).version == old(root).version,
            final(root).history == old(root).history,
            final(root).recorded_events@.len() == 0,
            match r {
                Ok(()) => {
                    &&& if old(root).recorded_events@.len() == 0 {
                        *final(self) == *old(self)
                    } else {
                        let id = old(root).aggregate@.id;
                        let prior = old(root).version - old(root).recorded_events@.len();
                        &&& spec_last_version(old(self).store, id) == prior
                        &&& final(self).store.event_streams@ == old(
                            self,
                        ).store.event_streams@.insert(id, final(self).store.event_streams@[id])
                        &&& final(self).store.event_streams@.contains_key(id)
                        &&& stream_seq(final(self).store, id) == stream_seq(old(self).store, id)
                            + persisted_of(id, prior, old(root).recorded_events@)
                    }
                    &&& store_wf(old(self).store) ==> store_wf(final(self).store)
                },
                Err(SaveError::Conflict(c)) => {
                    &&& *final(self) == *old(self)
                    &&& old(root).recorded_events@.len() > 0
                    &&& spec_last_version(old(self).store, old(root).aggregate@.id) != old(
                        root,
                    ).version - old(root).recorded_events@.len()
                    &&& c == (ConflictError {
                        expected: (old(root).version - old(root).recorded_events@.len()) as u64,
                        actual: spec_last_version(old(self).store, old(root).aggregate@.id) as u64,
                    })
                },
                Err(SaveError::Internal) => {
                    &&& *final(self) == *old(self)
                    &&& old(root).recorded_events@.len() > 0
                    &&& spec_last_version(old(self).store, old(root).aggregate@.id) == old(
                        root,
                    ).version - old(root).recorded_events@.len()
                    &&& spec_last_version(old(self).store, old(root).aggregate@.id) + old(
                        root,
                    ).recorded_events@.len() > u64::MAX
                },
            },
    {
        let events_to_commit = root.take_uncommitted_events();
        let aggregate_id: u16 = *root.aggregate_id();
        if events_to_commit.len() == 0 {
            return Ok(());
        }
        let current_version: u64 = root.version() - (events_to_commit.len() as u64);
        match self.store.append(
            aggregate_id,
            Check::MustBe(current_version),
            events_to_commit,
        ) {
            Ok(_) => Ok(()),
            Err(crate::store::AppendError::Conflict(c)) => Err(SaveError::Conflict(c)),
            Err(crate::store::AppendError::Internal) => Err(SaveError::Internal),
        }
    }
}

impl Repository for EventSourced {

}

/// Saving then reloading reconstructs the live state: when a root's history
/// extends what its stream already held (as it does for every root loaded by
/// [`Getter::get`] and advanced by commands), a successful save leaves the
/// stream's events equal to the root's full history — so replaying them
/// yields exactly the live aggregate.
pub proof fn lemma_saved_stream_replays(prev: InMemory, next: InMemory, root: Root)
    requires
        root_wf(root),
        stream_messages(prev, root.aggregate@.id) == root.history@.take(
            root.history@.len() - root.recorded_events@.len(),
        ),
        stream_seq(next, root.aggregate@.id) == stream_seq(prev, root.aggregate@.id)
            + persisted_of(
            root.aggregate@.id,
            root.version - root.recorded_events@.len(),
            root.recorded_events@,
        ),
    ensures
        stream_messages(next, root.aggregate@.id) == root.history@,
        spec_fold(stream_messages(next, root.aggregate@.id)) == Ok::<
            Option<AccountView>,
            BankAccountError,
        >(Some(root.aggregate@)),
{
    let id = root.aggregate@.id;
    let k = root.history@.len() - root.recorded_events@.len();
    let pm = stream_messages(prev, id);
    let nm = stream_messages(next, id);
    let ps = stream_seq(prev, id);
    let ns = stream_seq(next, id);
    let added = persisted_of(id, root.version - root.recorded_events@.len(), root.recorded_events@);
    assert(pm.len() == ps.len());
    assert(nm.len() == ns.len());
    assert(pm.len() == k);
    assert(nm.len() == root.history@.len());
    assert(nm =~= root.history@) by {
        assert forall|i: int| 0 <= i < nm.len() implies nm[i] == root.history@[i] by {
            assert(nm[i] == ns[i].event.message);
            if i < k {
                assert(ns[i] == ps[i]);
                assert(pm[i] == ps[i].event.message);
                assert(pm[i] == root.history@.take(k as int)[i]);
            } else {
                let j = i - k;
                assert(ns[i] == added[j]);
                assert(added[j].event == root.recorded_events@[j]);
                assert(root.recorded_events@[j].message == root.history@[k + j]);
            }
        }
    }
}

} // verus!
