//! The command service and the ingestion runtime.
//!
//! The service dispatches one client transaction: it loads the account
//! through the repository, runs the guarded command, and persists the new
//! event. The runtime records which clients were seen and feeds transactions
//! to the service one at a time; connectors (the sources that produce
//! transactions) register by name and are driven outside the library.

use vstd::prelude::*;

use crate::aggregate::{root_wf, Envelope};
use crate::command::Handler;
use crate::domain::{
    open_event, spec_apply, spec_chargeback, spec_deposit, spec_dispute, spec_resolve,
    spec_withdrawal, AccountView, BankAccountError, BankAccountRoot, Transaction, TransactionEvent,
    TransactionType,
};
use crate::aggregate::spec_fold;
use crate::repository::{EventSourced, GetError, Getter, SaveError, Saver};
use crate::store::{
    persisted_of, spec_last_version, store_wf, stream_messages, stream_seq, InMemory,
};

verus! {

/// Everything the command service can report for one transaction.
#[derive(Clone, Copy, Debug, PartialEq, Eq, Structural)]
pub enum HandleError {
    /// A command guard or the transition function rejected the transaction.
    Domain(BankAccountError),
    /// The account could not be loaded.
    Get(GetError),
    /// The new events could not be persisted.
    Save(SaveError),
}

/// What the service decides for a transaction against the current account
/// state: the event to record, or the error to report. A deposit for an
/// unknown client opens a fresh account; every other command demands an
/// existing one.
pub open spec fn spec_decide(state: Option<AccountView>, tx: Transaction) -> Result<
    TransactionEvent,
    HandleError,
> {
    match state {
        None => match tx.transaction_type {
            TransactionType::Deposit => Ok(open_event(tx)),
            _ => Err(HandleError::Get(GetError::NotFound)),
        },
        Some(acc) => {
            let d = match tx.transaction_type {
                TransactionType::Deposit => spec_deposit(acc, tx),
                TransactionType::Withdrawal => spec_withdrawal(acc, tx),
                TransactionType::Dispute => spec_dispute(acc, tx),
                TransactionType::Resolve => spec_resolve(acc, tx),
                TransactionType::Chargeback => spec_chargeback(acc, tx),
            };
            match d {
                Ok(ev) => Ok(ev),
                Err(e) => Err(HandleError::Domain(e)),
            }
        },
    }
}

/// The stream a decided event is persisted to: the replayed account's own id,
/// or the transaction's client id when the account is freshly opened.
pub open spec fn spec_target(state: Option<AccountView>, tx: Transaction) -> u16 {
    match state {
        None => tx.client_id,
        Some(acc) => acc.id,
    }
}

/// The complete behaviour of the service on one transaction against a
/// well-formed store: how the store changes and what is reported.
///
/// The client's stream is replayed; a corrupt stream is reported. The
/// command's decision is taken against the replayed state; a rejection
/// changes nothing. A decided event that the transition function refuses
/// changes nothing either. Otherwise the event is appended to its target
/// stream under an exact version check, unless the stream's version space is
/// exhausted, or the target differs from the client's stream and is not at
/// the matching version, in which case the conflict is reported and nothing
/// changes.
pub open spec fn handle_post(
    prev: InMemory,
    next: InMemory,
    tx: Transaction,
    r: Result<(), HandleError>,
) -> bool {
    let evs = stream_messages(prev, tx.client_id);
    match spec_fold(evs) {
        Err(_) => next == prev && r == Err::<(), HandleError>(
            HandleError::Get(GetError::Internal),
        ),
        Ok(state0) => match spec_decide(state0, tx) {
            Err(e) => next == prev && r == Err::<(), HandleError>(e),
            Ok(ev) => if state0 is Some && evs.len() >= u64::MAX {
                next == prev && r == Err::<(), HandleError>(
                    HandleError::Domain(BankAccountError::NumericOverflow),
                )
            } else {
                match spec_apply(state0, ev) {
                Err(e) => next == prev && r == Err::<(), HandleError>(HandleError::Domain(e)),
                Ok(_) => {
                    let target = spec_target(state0, tx);
                    if spec_last_version(prev, target) == evs.len() {
                        &&& r == Ok::<(), HandleError>(())
                        &&& next.event_streams@ == prev.event_streams@.insert(
                            target,
                            next.event_streams@[target],
                        )
                        &&& next.event_streams@.contains_key(target)
                        &&& stream_seq(next, target) == stream_seq(prev, target) + persisted_of(
                            target,
                            evs.len() as int,
                            seq![Envelope { message: ev }],
                        )
                    } else {
                        &&& next == prev
                        &&& r == Err::<(), HandleError>(
                            HandleError::Save(
                                SaveError::Conflict(
                                    crate::store::ConflictError {
                                        expected: evs.len() as u64,
                                        actual: spec_last_version(prev, target) as u64,
                                    },
                                ),
                            ),
                        )
                    }
                },
                }
            },
        },
    }
}

/// The command service: dispatches client transactions to account aggregates
/// through the event-sourced repository.
#[derive(Debug)]
pub struct Service {
    /// The repository holding every account.
    pub repository: EventSourced,
}

impl From<EventSourced> for Service {
    /// Builds the service over a repository.
    fn from(repository: EventSourced) -> (r: Service) {
        Service { repository }
    }
}

impl vstd::std_specs::convert::FromSpecImpl<EventSourced> for Service {
    open spec fn obeys_from_spec() -> bool {
        true
    }

    open spec fn from_spec(repository: EventSourced) -> Service {
        Service { repository }
    }
}

impl Handler<Transaction> for Service {
    type Error = HandleError;

    /// Dispatches one transaction: load, decide, record, save. The store
    /// changes exactly as [`handle_post`] says, and stays well formed.
    fn handle(&mut self, command: Envelope<Transaction>) -> (r: Result<(), HandleError>)
        ensures
            store_wf(old(self).repository.store) ==> store_wf(final(self).repository.store),
            handle_post(
                old(self).repository.store,
                final(self).repository.store,
                command.message,
                r,
            ),
    {
        let tx = command.message;
        match self.repository.get(&tx.client_id) {
            Err(GetError::Internal) => Err(HandleError::Get(GetError::Internal)),
            Err(GetError::NotFound) => {
                match tx.transaction_type {
                    TransactionType::Deposit => {
                        let mut root = match BankAccountRoot::open(tx) {
                            Err(e) => {
                                return Err(HandleError::Domain(e));
                            },
                            Ok(root) => root,
                        };
                        proof {
                            assert(root.0.recorded_events@ =~= Seq::<
                                Envelope<TransactionEvent>,
                            >::empty().push(Envelope { message: open_event(tx) }));
                        }
                        match self.repository.save(&mut root.0) {
                            Ok(()) => {
                                proof {
                                    lemma_singleton_envelope(open_event(tx));
                                }
                                Ok(())
                            },
                            Err(e) => Err(HandleError::Save(e)),
                        }
                    },
                    _ => Err(HandleError::Get(GetError::NotFound)),
                }
            },
            Ok(root) => {
                let mut root = BankAccountRoot::from(root);
                let outcome = match tx.transaction_type {
                    TransactionType::Deposit => root.deposit(tx),
                    TransactionType::Withdrawal => root.withdrawal(tx),
                    TransactionType::Dispute => root.dispute(tx),
                    TransactionType::Resolve => root.resolve(tx),
                    TransactionType::Chargeback => root.chargeback(tx),
                };
                match outcome {
                    Err(e) => Err(HandleError::Domain(e)),
                    Ok(()) => {
                        proof {
                            assert(root.0.recorded_events@ =~= Seq::<
                                Envelope<TransactionEvent>,
                            >::empty().push(root.0.recorded_events@.last()));
                        }
                        match self.repository.save(&mut root.0) {
                            Ok(()) => {
                                proof {
                                    lemma_singleton_envelope(root.0.history@.last());
                                }
                                Ok(())
                            },
                            Err(e) => Err(HandleError::Save(e)),
                        }
                    },
                }
            },
        }
    }
}

/// A one-event buffer viewed as a sequence is the singleton of its envelope.
proof fn lemma_singleton_envelope(ev: TransactionEvent)
    ensures
        Seq::<Envelope<TransactionEvent>>::empty().push(Envelope { message: ev }) =~= seq![
            Envelope { message: ev },
        ],
{
}

/// Why a connector could not deliver or register.
#[derive(Clone, Copy, Debug, PartialEq, Eq, Structural)]
pub enum ConnectorError {
    /// A connector with this name is already registered.
    Duplicated,
    /// The source is exhausted or torn down.
    Closed,
    /// The source failed for another reason.
    Other,
}

/// A source of transactions: anything that can be asked for the next request
/// until it reports [`ConnectorError::Closed`].
pub trait Read {
    /// What the source yields.
    type Request;

    /// The next request, or why none will come.
    fn recv(&mut self) -> Result<Self::Request, ConnectorError>;
}

/// A runtime that is registered but has not run yet.
pub struct Idle;

/// A runtime whose input is exhausted.
pub struct Dead;

/// The lifecycle states of the runtime.
pub trait State {

}

impl State for Idle {

}

impl State for Dead {

}

/// A strictly increasing sequence: sorted, with no duplicates.
pub open spec fn ids_sorted(s: Seq<u16>) -> bool {
    forall|i: int, j: int| 0 <= i < j < s.len() ==> s[i] < s[j]
}

/// Whether a registered connector already carries the given name.
pub open spec fn has_connector(ids: Seq<String>, name: Seq<char>) -> bool {
    exists|i: int| 0 <= i < ids.len() && ids[i]@ == name
}

/// The ingestion runtime: feeds client transactions to the command service
/// and remembers every client id seen, in ascending order.
pub struct Runtime<S: State> {
    /// The command service transactions are dispatched to.
    pub svc: Service,
    /// The names of the registered connectors, in registration order.
    pub connector_ids: Vec<String>,
    /// Every client id seen so far, ascending and without duplicates.
    pub account_ids: Vec<u16>,
    pub state: core::marker::PhantomData<S>,
}

impl Runtime<Idle> {
    /// A fresh runtime over the given service, with no connectors registered
    /// and no clients seen.
    pub fn new(svc: Service) -> (r: Runtime<Idle>)
        ensures
            r.svc == svc,
            r.connector_ids@.len() == 0,
            r.account_ids@.len() == 0,
    {
        Runtime { svc, connector_ids: Vec::new(), account_ids: Vec::new(), state: core::marker::PhantomData }
    }

    /// Registers a connector name; a name may be registered only once.
    pub fn with_connector(self, connector_id: String) -> (r: Result<Runtime<Idle>, ConnectorError>)
        ensures
            match r {
                Ok(rt) => {
                    &&& !has_connector(self.connector_ids@, connector_id@)
                    &&& rt.connector_ids@ == self.connector_ids@.push(connector_id)
                    &&& rt.svc == self.svc
                    &&& rt.account_ids == self.account_ids
                },
                Err(e) => e == ConnectorError::Duplicated && has_connector(
                    self.connector_ids@,
                    connector_id@,
                ),
            },
    {
        let mut i: usize = 0;
        while i < self.connector_ids.len()
            invariant
                i <= self.connector_ids@.len(),
                forall|j: int| 0 <= j < i ==> self.connector_ids@[j]@ != connector_id@,
            decreases self.connector_ids@.len() - i,
        {
            if self.connector_ids[i] == connector_id {
                return Err(ConnectorError::Duplicated);
            }
            i = i + 1;
        }
        let mut rt = self;
        rt.connector_ids.push(connector_id);
        Ok(rt)
    }

    /// Feeds one transaction through the engine: the client id is remembered
    /// (whatever the outcome, so the set of clients seen is complete)
    /// and the service handles the command. The error, if any, is handed back
    /// for the caller to log; processing may continue.
    pub fn process(&mut self, transaction: Transaction) -> (r: Result<(), HandleError>)
        ensures
            handle_post(
                old(self).svc.repository.store,
                final(self).svc.repository.store,
                transaction,
                r,
            ),
            store_wf(old(self).svc.repository.store) ==> store_wf(final(self).svc.repository.store),
            final(self).connector_ids == old(self).connector_ids,
            ids_sorted(old(self).account_ids@) ==> ids_sorted(final(self).account_ids@),
            forall|x: u16|
                final(self).account_ids@.contains(x) <==> (old(self).account_ids@.contains(x)
                    || x == transaction.client_id),
    {
        record_id(&mut self.account_ids, transaction.client_id);
        self.svc.handle(Envelope { message: transaction })
    }

    /// Input is exhausted: the runtime is dead, its observations preserved.
    pub fn run(self) -> (r: Runtime<Dead>)
        ensures
            r.svc == self.svc,
            r.connector_ids == self.connector_ids,
            r.account_ids == self.account_ids,
    {
        Runtime {
            svc: self.svc,
            connector_ids: self.connector_ids,
            account_ids: self.account_ids,
            state: core::marker::PhantomData,
        }
    }
}

impl<S: State> Runtime<S> {
    /// Every client id seen so far, ascending and without duplicates.
    pub fn account_ids(&self) -> (r: &Vec<u16>)
        ensures
            r@ == self.account_ids@,
    {
        &self.account_ids
    }
}

/// Inserts a client id into an ascending id list, keeping it sorted and
/// duplicate-free.
fn record_id(ids: &mut Vec<u16>, id: u16)
    ensures
        ids_sorted(old(ids)@) ==> ids_sorted(final(ids)@),
        forall|x: u16| final(ids)@.contains(x) <==> (old(ids)@.contains(x) || x == id),
{
    let ghost prior = ids@;
    let mut i: usize = 0;
    while i < ids.len() && ids[i] < id
        invariant
            i <= ids@.len(),
            ids@ == prior,
            forall|j: int| 0 <= j < i ==> ids@[j] < id,
        decreases ids@.len() - i,
    {
        i = i + 1;
    }
    if i < ids.len() && ids[i] == id {
        proof {
            assert(prior.contains(id));
        }
        return ;
    }
    ids.insert(i, id);
    proof {
        assert(ids@ == prior.insert(i as int, id));
        assert(forall|j: int| 0 <= j < i ==> ids@[j] == prior[j]);
        assert(ids@[i as int] == id);
        assert(forall|j: int| i < j < ids@.len() ==> ids@[j] == prior[j - 1]);
        assert forall|x: u16| ids@.contains(x) implies (prior.contains(x) || x == id) by {
            let k = choose|k: int| 0 <= k < ids@.len() && ids@[k] == x;
            if k < i {
                assert(prior[k] == x);
            } else if k > i {
                assert(prior[k - 1] == x);
            }
        }
        assert forall|x: u16| (prior.contains(x) || x == id) implies ids@.contains(x) by {
            if x == id {
                assert(ids@[i as int] == id);
            } else if prior.contains(x) {
                let k = choose|k: int| 0 <= k < prior.len() && prior[k] == x;
                if k < i {
                    assert(ids@[k] == x);
                } else {
                    assert(ids@[k + 1] == x);
                }
            }
        }
        if ids_sorted(prior) {
            assert(forall|j: int| i <= j < prior.len() ==> prior[j] >= id);
            assert forall|j: int| i < j < prior.len() implies prior[j] > id by {
                assert(prior[i as int] < prior[j]);
            }
            assert forall|a: int, b: int|
                0 <= a < b < ids@.len() implies ids@[a] < ids@[b] by {
                if a < i && b > i {
                    assert(ids@[a] == prior[a] && ids@[b] == prior[b - 1]);
                }
            }
        }
    }
}

/// A frozen account is never mutated again: once its stream replays to a
/// locked state, the service leaves the store untouched for any further
/// transaction of that client and reports the lock.
pub proof fn lemma_locked_account_never_mutated(
    prev: InMemory,
    next: InMemory,
    tx: Transaction,
    r: Result<(), HandleError>,
)
    requires
        spec_fold(stream_messages(prev, tx.client_id)) matches Ok(Some(acc)) && acc.locked,
        handle_post(prev, next, tx, r),
    ensures
        next == prev,
        r == Err::<(), HandleError>(
            HandleError::Domain(
                BankAccountError::LockedAccount { id: tx.client_id, tx: tx.tx_id },
            ),
        ),
{
    let acc = spec_fold(stream_messages(prev, tx.client_id))->Ok_0->Some_0;
    crate::domain::lemma_locked_account_rejects(acc, tx);
}

} // verus!
