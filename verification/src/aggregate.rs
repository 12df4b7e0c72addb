//! Aggregate roots and the rehydration protocol.
//!
//! A [`Root`] owns an account aggregate together with its version and the
//! domain events recorded since the last save. The same transition function
//! drives live mutation and replay, so a root rebuilt from its full event
//! stream carries exactly the live state; [`spec_fold`] is the mathematical
//! form of that replay and every contract here is stated against it.

use vstd::prelude::*;

use crate::domain::{
    account_wf, apply_result_matches, lemma_apply_preserves_wf, opt_account_view, spec_apply,
    Account, AccountView, BankAccountError, TransactionEvent,
};

verus! {

/// A piece of domain data that occurs in the system, carrying a domain name.
pub trait Message {
    /// The domain name of the message.
    fn name(&self) -> (r: &'static str);
}

/// An aggregate: a consistency boundary whose state advances only through
/// its pure transition function.
pub trait Aggregate: Sized {
    /// The type identifying one aggregate instance.
    type Id;

    /// The domain events that drive this aggregate.
    type Event;

    /// The error the transition function can report.
    type Error;

    /// A unique name for this aggregate type.
    fn type_label() -> (r: &'static str);

    /// The identifier of this aggregate instance.
    fn aggregate_id(&self) -> (r: &Self::Id);

    /// Advances the state (or creates it, from `None`) through one domain
    /// event, or reports why the event cannot apply.
    fn apply(state: Option<Self>, event: Self::Event) -> (r: Result<Self, Self::Error>);
}

/// A message envelope. Metadata would travel beside the payload here; the
/// engine carries the payload alone.
#[derive(Clone, Copy, Debug, PartialEq, Eq)]
pub struct Envelope<T> {
    /// The message payload.
    pub message: T,
}

impl<T> From<T> for Envelope<T> {
    /// Wraps a message into an envelope.
    fn from(message: T) -> (r: Envelope<T>) {
        Envelope { message }
    }
}

impl<T> vstd::std_specs::convert::FromSpecImpl<T> for Envelope<T> {
    open spec fn obeys_from_spec() -> bool {
        true
    }

    open spec fn from_spec(message: T) -> Envelope<T> {
        Envelope { message }
    }
}

/// The payloads of a sequence of envelopes, in order.
pub open spec fn messages(events: Seq<Envelope<TransactionEvent>>) -> Seq<TransactionEvent> {
    events.map_values(|e: Envelope<TransactionEvent>| e.message)
}

/// The outcome of replaying a sequence of domain events from nothing:
/// the final account state, `None` for the empty sequence, or the first
/// error met. Replay applies events oldest first through [`spec_apply`].
pub open spec fn spec_fold(events: Seq<TransactionEvent>) -> Result<
    Option<AccountView>,
    BankAccountError,
> {
    spec_fold_from(None, events)
}

/// The outcome of replaying a sequence of domain events from a given state.
pub open spec fn spec_fold_from(
    state: Option<AccountView>,
    events: Seq<TransactionEvent>,
) -> Result<Option<AccountView>, BankAccountError>
    decreases events.len(),
{
    if events.len() == 0 {
        Ok(state)
    } else {
        match spec_fold_from(state, events.drop_last()) {
            Err(e) => Err(e),
            Ok(st) => match spec_apply(st, events.last()) {
                Ok(a) => Ok(Some(a)),
                Err(e) => Err(e),
            },
        }
    }
}

/// Replay of a stream extended by one event is replay of the stream followed
/// by one application of the transition function.
pub proof fn lemma_fold_snoc(events: Seq<TransactionEvent>, e: TransactionEvent)
    ensures
        spec_fold(events.push(e)) == (match spec_fold(events) {
            Err(err) => Err::<Option<AccountView>, BankAccountError>(err),
            Ok(st) => match spec_apply(st, e) {
                Ok(a) => Ok(Some(a)),
                Err(err) => Err(err),
            },
        }),
{
    assert(events.push(e).drop_last() =~= events);
    assert(events.push(e).last() == e);
}

/// Once replay has failed, appending further events changes nothing.
pub proof fn lemma_fold_error_sticks(s: Seq<TransactionEvent>, t: Seq<TransactionEvent>)
    requires
        spec_fold(s) is Err,
    ensures
        spec_fold(s + t) == spec_fold(s),
    decreases t.len(),
{
    if t.len() == 0 {
        assert(s + t =~= s);
    } else {
        lemma_fold_error_sticks(s, t.drop_last());
        assert((s + t).drop_last() =~= s + t.drop_last());
        assert((s + t).len() > 0);
    }
}

/// Any state that replay reaches is well formed: held funds are never
/// negative and balances never leave the representable range.
pub proof fn lemma_fold_wf(events: Seq<TransactionEvent>)
    ensures
        spec_fold(events) matches Ok(Some(a)) ==> account_wf(a),
    decreases events.len(),
{
    if events.len() > 0 {
        lemma_fold_wf(events.drop_last());
        if spec_fold(events.drop_last()) is Ok {
            let st = spec_fold(events.drop_last())->Ok_0;
            lemma_apply_preserves_wf(st, events.last());
        }
    }
}

/// Well-formedness of an aggregate root: the version counts the full history,
/// replaying the history yields exactly the live aggregate state, and the
/// uncommitted events are precisely the most recent part of the history.
pub open spec fn root_wf(root: Root) -> bool {
    &&& root.version == root.history@.len()
    &&& spec_fold(root.history@) == Ok::<Option<AccountView>, BankAccountError>(
        Some(root.aggregate@),
    )
    &&& root.recorded_events@.len() <= root.history@.len()
    &&& (forall|j: int|
        0 <= j < root.recorded_events@.len() ==> root.recorded_events@[j].message
            == root.history@[root.history@.len() - root.recorded_events@.len() + j])
    &&& account_wf(root.aggregate@)
}

/// An aggregate root: the handle through which commands reach an account.
///
/// It owns the aggregate state, the stream version that state corresponds to,
/// and the events recorded since the last save. The ghost history carries
/// every event ever applied, so that contracts can speak of full replay.
pub struct Root {
    /// The live aggregate state.
    pub aggregate: Account,
    /// The version of the event stream this state reflects (one-based count
    /// of all events ever applied).
    pub version: u64,
    /// Events recorded since the last save, oldest first.
    pub recorded_events: Vec<Envelope<TransactionEvent>>,
    /// Every event ever applied to this root, oldest first.
    pub history: Ghost<Seq<TransactionEvent>>,
}

impl Root {
    /// The current version of the aggregate.
    pub fn version(&self) -> (r: u64)
        ensures
            r == self.version,
    {
        self.version
    }

    /// The identifier of the aggregate.
    pub fn aggregate_id(&self) -> (r: &u16)
        ensures
            *r == self.aggregate@.id,
    {
        self.aggregate.aggregate_id()
    }

    /// Hands out the uncommitted events and leaves the buffer empty; the
    /// aggregate state, version and history stay as they were.
    pub fn take_uncommitted_events(&mut self) -> (r: Vec<Envelope<TransactionEvent>>)
        ensures
            r@ == old(self).recorded_events@,
            final(self).recorded_events@.len() == 0,
            final(self).aggregate == old(self).aggregate,
            final(self).version == old(self).version,
            final(self).history == old(self).history,
            root_wf(*old(self)) ==> root_wf(*final(self)),
    {
        let mut taken: Vec<Envelope<TransactionEvent>> = Vec::new();
        core::mem::swap(&mut self.recorded_events, &mut taken);
        taken
    }

    /// Starts a new aggregate from its first domain event. On success the
    /// root carries the opened state at version one with the event recorded
    /// and uncommitted; on failure it reports exactly what the transition
    /// function reports.
    pub fn record_new(event: Envelope<TransactionEvent>) -> (r: Result<Root, BankAccountError>)
        ensures
            match r {
                Ok(root) => {
                    &&& spec_apply(None, event.message) matches Ok(a) && root.aggregate@ == a
                    &&& root.version == 1
                    &&& root.recorded_events@ =~= seq![event]
                    &&& root.history@ =~= seq![event.message]
                    &&& root_wf(root)
                },
                Err(e) => spec_apply(None, event.message) matches Err(e2) && e == e2,
            },
    {
        match Account::apply(None, event.message) {
            Ok(aggregate) => {
                let mut recorded_events: Vec<Envelope<TransactionEvent>> = Vec::new();
                recorded_events.push(event);
                let ghost h = seq![event.message];
                let root = Root { aggregate, version: 1, recorded_events, history: Ghost(h) };
                proof {
                    lemma_apply_preserves_wf(None, event.message);
                    lemma_fold_snoc(Seq::empty(), event.message);
                    assert(Seq::<TransactionEvent>::empty().push(event.message) =~= h);
                }
                Ok(root)
            },
            Err(e) => Err(e),
        }
    }

    /// Records one further domain event against the aggregate. On success the
    /// state advances exactly as the transition function says, the version
    /// grows by one and the event joins the uncommitted buffer; on failure
    /// nothing changes and the error is exactly the transition function's,
    /// except that an exhausted version space is reported as overflow.
    pub fn record_that(&mut self, event: Envelope<TransactionEvent>) -> (r: Result<
        (),
        BankAccountError,
    >)
        ensures
            match r {
                Ok(()) => {
                    &&& old(self).version < u64::MAX
                    &&& spec_apply(Some(old(self).aggregate@), event.message) matches Ok(a)
                        && final(self).aggregate@ == a
                    &&& final(self).version == old(self).version + 1
                    &&& final(self).recorded_events@ =~= old(self).recorded_events@.push(event)
                    &&& final(self).history@ =~= old(self).history@.push(event.message)
                    &&& root_wf(*old(self)) ==> root_wf(*final(self))
                },
                Err(e) => {
                    &&& *final(self) == *old(self)
                    &&& if old(self).version == u64::MAX {
                        e == BankAccountError::NumericOverflow
                    } else {
                        spec_apply(Some(old(self).aggregate@), event.message) matches Err(e2) && e
                            == e2
                    }
                },
            },
    {
        if self.version == u64::MAX {
            return Err(BankAccountError::NumericOverflow);
        }
        match Account::apply(Some(self.aggregate.clone()), event.message) {
            Ok(aggregate) => {
                self.aggregate = aggregate;
                self.recorded_events.push(event);
                self.version = self.version + 1;
                proof {
                    self.history@ = old(self).history@.push(event.message);
                    if root_wf(*old(self)) {
                        lemma_fold_snoc(old(self).history@, event.message);
                        lemma_apply_preserves_wf(Some(old(self).aggregate@), event.message);
                    }
                }
                Ok(())
            },
            Err(e) => Err(e),
        }
    }

    /// Rebuilds a root from an externally supplied state and version, with an
    /// empty uncommitted buffer. For repository implementations that persist
    /// state directly; nothing is promised about replay of such a root.
    pub fn rehydrate_from_state(version: u64, aggregate: Account) -> (r: Root)
        ensures
            r.version == version,
            r.aggregate == aggregate,
            r.recorded_events@.len() == 0,
    {
        Root { aggregate, version, recorded_events: Vec::new(), history: Ghost(Seq::empty()) }
    }

    /// Rebuilds a root by replaying a stream of domain events, oldest first.
    /// An empty stream yields `None`; a stream some event of which cannot
    /// apply yields the first such error; otherwise the root carries exactly
    /// the replayed state, the stream's length as its version, and an empty
    /// uncommitted buffer.
    pub fn rehydrate(stream: &Vec<Envelope<TransactionEvent>>) -> (r: Result<
        Option<Root>,
        BankAccountError,
    >)
        ensures
            match r {
                Ok(None) => stream@.len() == 0,
                Ok(Some(root)) => {
                    &&& stream@.len() > 0
                    &&& spec_fold(messages(stream@)) == Ok::<
                        Option<AccountView>,
                        BankAccountError,
                    >(Some(root.aggregate@))
                    &&& root.version == stream@.len()
                    &&& root.recorded_events@.len() == 0
                    &&& root.history@ =~= messages(stream@)
                    &&& root_wf(root)
                },
                Err(e) => spec_fold(messages(stream@)) == Err::<
                    Option<AccountView>,
                    BankAccountError,
                >(e),
            },
    {
        let ghost all = messages(stream@);
        let mut root: Option<Root> = None;
        let mut i: usize = 0;
        while i < stream.len()
            invariant
                i <= stream@.len(),
                all == messages(stream@),
                match root {
                    None => i == 0,
                    Some(r) => {
                        &&& i > 0
                        &&& spec_fold(all.take(i as int)) == Ok::<
                            Option<AccountView>,
                            BankAccountError,
                        >(Some(r.aggregate@))
                        &&& r.version == i
                        &&& r.recorded_events@.len() == 0
                        &&& r.history@ == all.take(i as int)
                        &&& root_wf(r)
                    },
                },
            decreases stream@.len() - i,
        {
            let event = stream[i];
            proof {
                assert(all.take(i + 1).drop_last() =~= all.take(i as int));
                assert(all.take(i + 1).last() == event.message);
            }
            let ghost prior = root;
            let next = match root {
                None => Root::rehydrate_from(event),
                Some(r) => r.apply_rehydrated_event(event),
            };
            match next {
                Ok(r) => {
                    proof {
                        if i == 0 {
                            assert(r.history@ =~= all.take(i + 1));
                        } else {
                            assert(prior->Some_0.history@.push(event.message) =~= all.take(i + 1));
                        }
                        lemma_fold_snoc(all.take(i as int), event.message);
                    }
                    root = Some(r);
                },
                Err(e) => {
                    proof {
                        lemma_fold_error_sticks(all.take(i + 1), all.skip(i + 1));
                        assert(all.take(i + 1) + all.skip(i + 1) =~= all);
                    }
                    return Err(e);
                },
            }
            i = i + 1;
        }
        proof {
            assert(all.take(stream@.len() as int) =~= all);
        }
        Ok(root)
    }

    /// Starts a root from the first event of a stream being replayed; the
    /// event is not recorded as uncommitted.
    pub fn rehydrate_from(event: Envelope<TransactionEvent>) -> (r: Result<
        Root,
        BankAccountError,
    >)
        ensures
            match r {
                Ok(root) => {
                    &&& spec_apply(None, event.message) matches Ok(a) && root.aggregate@ == a
                    &&& root.version == 1
                    &&& root.recorded_events@.len() == 0
                    &&& root.history@ =~= seq![event.message]
                    &&& root_wf(root)
                },
                Err(e) => spec_apply(None, event.message) matches Err(e2) && e == e2,
            },
    {
        match Account::apply(None, event.message) {
            Ok(aggregate) => {
                let ghost h = seq![event.message];
                let root = Root { aggregate, version: 1, recorded_events: Vec::new(), history: Ghost(h) };
                proof {
                    lemma_apply_preserves_wf(None, event.message);
                    lemma_fold_snoc(Seq::empty(), event.message);
                    assert(Seq::<TransactionEvent>::empty().push(event.message) =~= h);
                }
                Ok(root)
            },
            Err(e) => Err(e),
        }
    }

    /// Advances a root through one event of a stream being replayed; the
    /// event is not recorded as uncommitted.
    pub fn apply_rehydrated_event(self, event: Envelope<TransactionEvent>) -> (r: Result<
        Root,
        BankAccountError,
    >)
        requires
            self.version < u64::MAX,
            self.recorded_events@.len() == 0,
        ensures
            match r {
                Ok(root) => {
                    &&& spec_apply(Some(self.aggregate@), event.message) matches Ok(a)
                        && root.aggregate@ == a
                    &&& root.version == self.version + 1
                    &&& root.recorded_events@.len() == 0
                    &&& root.history@ =~= self.history@.push(event.message)
                    &&& root_wf(self) ==> root_wf(root)
                },
                Err(e) => spec_apply(Some(self.aggregate@), event.message) matches Err(e2) && e
                    == e2,
            },
    {
        match Account::apply(Some(self.aggregate), event.message) {
            Ok(aggregate) => {
                let root = Root {
                    aggregate,
                    version: self.version + 1,
                    recorded_events: self.recorded_events,
                    history: Ghost(self.history@.push(event.message)),
                };
                proof {
                    if root_wf(self) {
                        lemma_fold_snoc(self.history@, event.message);
                        lemma_apply_preserves_wf(Some(self.aggregate@), event.message);
                    }
                }
                Ok(root)
            },
            Err(e) => Err(e),
        }
    }
}

/// Replaying a well-formed root's full history reconstructs exactly its live
/// aggregate state and version.
pub proof fn lemma_rehydrate_matches_live(root: Root)
    requires
        root_wf(root),
    ensures
        spec_fold(root.history@) == Ok::<Option<AccountView>, BankAccountError>(
            Some(root.aggregate@),
        ),
        root.history@.len() == root.version,
{
}

} // verus!
