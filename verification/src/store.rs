//! The append-only event store with optimistic concurrency.
//!
//! Each stream holds the persisted events of one account, with one-based,
//! gap-free versions. An append may demand that the stream be at an exact
//! version and fails without mutating anything when it is not.

use std::collections::HashMap;
use vstd::prelude::*;

use crate::aggregate::Envelope;
use crate::domain::TransactionEvent;

verus! {

broadcast use vstd::std_specs::hash::group_hash_axioms;

/// The version of an event stream: the one-based count of its events.
pub type Version = u64;

/// An optimistic-concurrency failure: the stream was not at the version the
/// caller demanded.
#[derive(Clone, Copy, Debug, PartialEq, Eq, Structural)]
pub struct ConflictError {
    /// The version the caller expected.
    pub expected: Version,
    /// The version the stream was actually at.
    pub actual: Version,
}

/// The version demand of an append.
#[derive(Clone, Copy, Debug, PartialEq, Eq, Structural)]
pub enum Check {
    /// Append whatever the current version.
    Any,
    /// Append only if the stream is exactly at the given version.
    MustBe(Version),
}

/// An event that has been persisted to a stream.
#[derive(Clone, Copy, Debug, PartialEq, Eq)]
pub struct Persisted<Id, Evt> {
    /// The stream the event belongs to.
    pub stream_id: Id,
    /// The position of the event in its stream, starting at one.
    pub version: Version,
    /// The domain event itself.
    pub event: Envelope<Evt>,
}

/// The slice of a stream to read.
#[derive(Clone, Copy, Debug, PartialEq, Eq, Structural)]
pub enum VersionSelect {
    /// Every event of the stream.
    All,
    /// Every event at or after the given version.
    From(Version),
}

/// Everything an append can fail with.
#[derive(Clone, Copy, Debug, PartialEq, Eq, Structural)]
pub enum AppendError {
    /// The stream was not at the demanded version; nothing was written.
    Conflict(ConflictError),
    /// The version space of the stream is exhausted; nothing was written.
    Internal,
}

/// Read access to persisted event streams.
pub trait Streamer {
    /// The events of the selected slice of the stream, in recorded order.
    fn stream(&self, id: &u16, select: VersionSelect) -> Vec<Persisted<u16, TransactionEvent>>;
}

/// Write access to persisted event streams.
pub trait Appender {
    /// Appends events to the stream, subject to the version check, and
    /// returns the stream's new last version.
    fn append(
        &mut self,
        id: u16,
        version_check: Check,
        events: Vec<Envelope<TransactionEvent>>,
    ) -> Result<Version, AppendError>;
}

/// An event store: a streamer and an appender over the same streams.
pub trait Store: Streamer + Appender {

}

/// The events stored for one stream id, in recorded order; empty when the
/// stream does not exist.
pub open spec fn stream_seq(s: InMemory, id: u16) -> Seq<Persisted<u16, TransactionEvent>> {
    if s.event_streams@.contains_key(id) {
        s.event_streams@[id]@
    } else {
        Seq::empty()
    }
}

/// The domain events of one stream, in recorded order.
pub open spec fn stream_messages(s: InMemory, id: u16) -> Seq<TransactionEvent> {
    stream_seq(s, id).map_values(|p: Persisted<u16, TransactionEvent>| p.event.message)
}

/// The version of the last event of a stream, or zero when it has none.
/// In a well-formed store this is the stream's length.
pub open spec fn spec_last_version(s: InMemory, id: u16) -> int {
    let sq = stream_seq(s, id);
    if sq.len() == 0 {
        0
    } else {
        sq.last().version as int
    }
}

/// The events a stream gains when `events` are appended after version `last`:
/// each is stamped with the stream id and the next version in order.
pub open spec fn persisted_of(
    id: u16,
    last: int,
    events: Seq<Envelope<TransactionEvent>>,
) -> Seq<Persisted<u16, TransactionEvent>> {
    Seq::new(
        events.len(),
        |i: int| Persisted { stream_id: id, version: (last + i + 1) as u64, event: events[i] },
    )
}

/// One stream is well formed: its events carry its id and versions one,
/// two, three and so on, in order, without gaps.
pub open spec fn stream_versions_ok(sq: Seq<Persisted<u16, TransactionEvent>>, id: u16) -> bool {
    forall|i: int|
        0 <= i < sq.len() ==> (#[trigger] sq[i]).version == i + 1 && sq[i].stream_id == id
}

/// A store is well formed: every stream it holds is well formed.
pub open spec fn store_wf(s: InMemory) -> bool {
    forall|id: u16|
        #[trigger] s.event_streams@.contains_key(id) ==> stream_versions_ok(
            s.event_streams@[id]@,
            id,
        )
}

/// In a well-formed store, the versions of any stream form the contiguous
/// sequence one, two, three and so on, and the last version is the length.
pub proof fn lemma_versions_contiguous(s: InMemory, id: u16)
    requires
        store_wf(s),
    ensures
        forall|i: int|
            0 <= i < stream_seq(s, id).len() ==> (#[trigger] stream_seq(s, id)[i]).version == i + 1,
        spec_last_version(s, id) == stream_seq(s, id).len(),
{
    if s.event_streams@.contains_key(id) {
        assert(stream_versions_ok(s.event_streams@[id]@, id));
    }
}

/// The in-memory event store: a map from stream id to its recorded events.
#[derive(Debug)]
pub struct InMemory {
    /// The event streams, keyed by stream id.
    pub event_streams: HashMap<u16, Vec<Persisted<u16, TransactionEvent>>>,
}

impl Default for InMemory {
    /// An empty store.
    fn default() -> (r: InMemory)
        ensures
            r.event_streams@ == Map::<u16, Vec<Persisted<u16, TransactionEvent>>>::empty(),
            store_wf(r),
    {
        InMemory { event_streams: HashMap::new() }
    }
}

impl Streamer for InMemory {
    /// A snapshot of the selected slice of the stream: every stored event
    /// from the slice's starting position on, in recorded order. For a
    /// well-formed store, `From(v)` selects exactly the events with version
    /// at least `v`.
    fn stream(&self, id: &u16, select: VersionSelect) -> (r: Vec<
        Persisted<u16, TransactionEvent>,
    >)
        ensures
            r@ == stream_seq(*self, *id).skip(
                select_start(select, stream_seq(*self, *id).len() as int),
            ),
            select is All ==> r@ == stream_seq(*self, *id),
    {
        let ghost sq = stream_seq(*self, *id);
        let empty_vec: Vec<Persisted<u16, TransactionEvent>> = Vec::new();
        let stored: &Vec<Persisted<u16, TransactionEvent>> = match self.event_streams.get(id) {
            Some(v) => v,
            None => &empty_vec,
        };
        let start: usize = match select {
            VersionSelect::All => 0,
            VersionSelect::From(v) => {
                if v <= 1 {
                    0
                } else if v - 1 <= stored.len() as u64 {
                    (v - 1) as usize
                } else {
                    stored.len()
                }
            },
        };
        let mut out: Vec<Persisted<u16, TransactionEvent>> = Vec::new();
        let mut i: usize = start;
        while i < stored.len()
            invariant
                start <= i <= stored@.len(),
                stored@ == sq,
                out@ == sq.subrange(start as int, i as int),
            decreases stored@.len() - i,
        {
            out.push(stored[i]);
            proof {
                assert(sq.subrange(start as int, i + 1) =~= sq.subrange(start as int, i as int)
                    .push(sq[i as int]));
            }
            i = i + 1;
        }
        proof {
            assert(out@ =~= sq.skip(select_start(select, sq.len() as int)));
        }
        out
    }
}

/// Where the selected slice of a stream of the given length starts.
pub open spec fn select_start(select: VersionSelect, len: int) -> int {
    match select {
        VersionSelect::All => 0,
        VersionSelect::From(v) => if v <= 1 {
            0
        } else if v - 1 <= len {
            v - 1
        } else {
            len
        },
    }
}

impl Appender for InMemory {
    /// Appends the events to the stream, giving them the next versions in
    /// order, and returns the new last version. With `MustBe(v)`, succeeds
    /// exactly when the stream's last version is `v` (and the version space
    /// suffices); on any failure the store is untouched. Appending nothing
    /// is a no-op that returns the current last version.
    fn append(
        &mut self,
        id: u16,
        version_check: Check,
        events: Vec<Envelope<TransactionEvent>>,
    ) -> (r: Result<Version, AppendError>)
        ensures
            match r {
                Ok(v) => {
                    &&& (version_check matches Check::MustBe(e) ==> e == spec_last_version(
                        *old(self),
                        id,
                    ))
                    &&& v == spec_last_version(*old(self), id) + events@.len()
                    &&& if events@.len() == 0 {
                        *final(self) == *old(self)
                    } else {
                        &&& final(self).event_streams@ == old(self).event_streams@.insert(
                            id,
                            final(self).event_streams@[id],
                        )
                        &&& final(self).event_streams@.contains_key(id)
                        &&& final(self).event_streams@[id]@ == stream_seq(*old(self), id)
                            + persisted_of(id, spec_last_version(*old(self), id), events@)
                    }
                    &&& store_wf(*old(self)) ==> store_wf(*final(self))
                },
                Err(AppendError::Conflict(c)) => {
                    &&& *final(self) == *old(self)
                    &&& version_check matches Check::MustBe(e) && e != spec_last_version(
                        *old(self),
                        id,
                    ) && c == (ConflictError {
                        expected: e,
                        actual: spec_last_version(*old(self), id) as u64,
                    })
                },
                Err(AppendError::Internal) => {
                    &&& *final(self) == *old(self)
                    &&& (version_check matches Check::MustBe(e) ==> e == spec_last_version(
                        *old(self),
                        id,
                    ))
                    &&& spec_last_version(*old(self), id) + events@.len() > u64::MAX
                },
            },
    {
        let ghost prior = *self;
        let last: u64 = match self.event_streams.get(&id) {
            None => 0,
            Some(v) => {
                if v.len() == 0 {
                    0
                } else {
                    v[v.len() - 1].version
                }
            },
        };
        if let Check::MustBe(expected) = version_check {
            if last != expected {
                return Err(
                    AppendError::Conflict(ConflictError { expected, actual: last }),
                );
            }
        }
        if events.len() == 0 {
            return Ok(last);
        }
        let len_u64: u64 = events.len() as u64;
        let new_last: u64 = match last.checked_add(len_u64) {
            None => {
                return Err(AppendError::Internal);
            },
            Some(v) => v,
        };
        let mut stored: Vec<Persisted<u16, TransactionEvent>> = match self.event_streams.remove(
            &id,
        ) {
            None => Vec::new(),
            Some(v) => v,
        };
        let ghost old_stored = stored@;
        let mut i: usize = 0;
        while i < events.len()
            invariant
                i <= events@.len(),
                last + events@.len() <= u64::MAX,
                stored@ =~= old_stored + persisted_of(id, last as int, events@.take(i as int)),
            decreases events@.len() - i,
        {
            let version: u64 = last + (i as u64) + 1;
            stored.push(Persisted { stream_id: id, version, event: events[i] });
            proof {
                assert(persisted_of(id, last as int, events@.take(i + 1)) =~= persisted_of(
                    id,
                    last as int,
                    events@.take(i as int),
                ).push(Persisted { stream_id: id, version: (last + i + 1) as u64, event: events@[i as int] }));
            }
            i = i + 1;
        }
        proof {
            assert(events@.take(events@.len() as int) =~= events@);
        }
        self.event_streams.insert(id, stored);
        proof {
            assert(self.event_streams@ =~= prior.event_streams@.insert(
                id,
                self.event_streams@[id],
            ));
            lemma_append_preserves_wf(prior, *self, id, last as int, events@);
        }
        Ok(new_last)
    }
}

impl Store for InMemory {

}

/// Appending after the last version of a well-formed stream keeps the store
/// well formed.
proof fn lemma_append_preserves_wf(
    prior: InMemory,
    after: InMemory,
    id: u16,
    last: int,
    events: Seq<Envelope<TransactionEvent>>,
)
    requires
        after.event_streams@ == prior.event_streams@.insert(id, after.event_streams@[id]),
        after.event_streams@.contains_key(id),
        after.event_streams@[id]@ == stream_seq(prior, id) + persisted_of(id, last, events),
        last == spec_last_version(prior, id),
        0 <= last,
        last + events.len() <= u64::MAX,
    ensures
        store_wf(prior) ==> store_wf(after),
{
    if store_wf(prior) {
        lemma_versions_contiguous(prior, id);
        assert(stream_versions_ok(after.event_streams@[id]@, id)) by {
            let sq = after.event_streams@[id]@;
            assert forall|i: int| 0 <= i < sq.len() implies (#[trigger] sq[i]).version == i + 1
                && sq[i].stream_id == id by {
                if i < stream_seq(prior, id).len() {
                    assert(sq[i] == stream_seq(prior, id)[i]);
                } else {
                    assert(sq[i] == persisted_of(id, last, events)[i - stream_seq(
                        prior,
                        id,
                    ).len()]);
                }
            }
        }
        assert forall|sid: u16| #[trigger]
            after.event_streams@.contains_key(sid) implies stream_versions_ok(
            after.event_streams@[sid]@,
            sid,
        ) by {
            if sid != id {
                assert(prior.event_streams@.contains_key(sid));
                assert(after.event_streams@[sid] == prior.event_streams@[sid]);
            }
        }
    }
}

/// In a well-formed store, selecting from a version yields exactly the events
/// whose version is at least the bound: the selected slice starts where the
/// versions reach it.
pub proof fn lemma_select_by_version(s: InMemory, id: u16, v: u64)
    ensures
        store_wf(s) ==> {
            let sq = stream_seq(s, id);
            let r = sq.skip(select_start(VersionSelect::From(v), sq.len() as int));
            &&& forall|i: int| 0 <= i < r.len() ==> (#[trigger] r[i]).version >= v
            &&& forall|i: int| 0 <= i < sq.len() && (#[trigger] sq[i]).version >= v ==> r.contains(
                sq[i],
            )
        },
{
    if store_wf(s) {
        lemma_versions_contiguous(s, id);
        let sq = stream_seq(s, id);
        let start = select_start(VersionSelect::From(v), sq.len() as int);
        let r = sq.skip(start);
        assert forall|i: int| 0 <= i < sq.len() && (#[trigger] sq[i]).version >= v implies r
            .contains(sq[i]) by {
            assert(sq[i].version == i + 1);
            assert(r[i - start] == sq[i]);
        }
    }
}

} // verus!
