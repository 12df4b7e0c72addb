//! The account aggregate: a state machine over domain events.
//!
//! An account is created by an opening deposit and thereafter mutated only
//! through domain events. [`Account::apply`] is the single transition
//! function, shared by live mutation and by replay, so every invariant it
//! enforces holds of rehydrated state as well. Balance arithmetic is exact
//! and checked: a transition whose balances would leave the representable
//! range is rejected rather than rounded or wrapped.

use std::collections::HashMap;
use vstd::prelude::*;

use crate::aggregate::{root_wf, Aggregate, Envelope, Message, Root};
use crate::decimal::{dec_in_range, round_snap, snap_in_range, Decimal, DEC_LIMIT};

verus! {

broadcast use vstd::std_specs::hash::group_hash_axioms;

/// The kind of a client transaction.
#[derive(Clone, Copy, Debug, PartialEq, Eq, Structural)]
pub enum TransactionType {
    Deposit,
    Withdrawal,
    Dispute,
    Resolve,
    Chargeback,
}

/// The dispute status of a transaction recorded inside an account.
#[derive(Clone, Copy, Debug, PartialEq, Eq, Structural)]
pub enum Status {
    Settled,
    Disputed,
    Resolved,
    ChargedBack,
    Declined,
}

impl Default for Status {
    /// A freshly read transaction is undisputed.
    fn default() -> (r: Status)
        ensures
            r == Status::Settled,
    {
        Status::Settled
    }
}

/// A client transaction.
#[derive(Clone, Copy, Debug, PartialEq, Eq)]
pub struct Transaction {
    /// Dispute status, tracked internally once the transaction is recorded.
    pub status: Status,
    /// The client the transaction belongs to.
    pub client_id: u16,
    /// The globally unique transaction id.
    pub tx_id: u32,
    /// The kind of transaction.
    pub transaction_type: TransactionType,
    /// The amount moved; present only for deposits and withdrawals.
    pub amount: Option<Decimal>,
}

/// Whether a recorded transaction may enter a dispute: it is undisputed and
/// moves money.
pub open spec fn spec_can_be_disputed(t: Transaction) -> bool {
    t.status is Settled && (t.transaction_type is Withdrawal || t.transaction_type is Deposit)
}

/// Whether a recorded transaction may leave a dispute: it is under dispute and
/// moves money.
pub open spec fn spec_can_complete_dispute(t: Transaction) -> bool {
    t.status is Disputed && (t.transaction_type is Withdrawal || t.transaction_type is Deposit)
}

impl Transaction {
    /// Whether this transaction may enter a dispute.
    pub fn can_be_disputed(&self) -> (r: bool)
        ensures
            r == spec_can_be_disputed(*self),
    {
        matches!(self.status, Status::Settled) && (matches!(
            self.transaction_type,
            TransactionType::Withdrawal,
        ) || matches!(self.transaction_type, TransactionType::Deposit))
    }

    /// Whether this transaction may leave a dispute.
    pub fn can_complete_dispute(&self) -> (r: bool)
        ensures
            r == spec_can_complete_dispute(*self),
    {
        matches!(self.status, Status::Disputed) && (matches!(
            self.transaction_type,
            TransactionType::Withdrawal,
        ) || matches!(self.transaction_type, TransactionType::Deposit))
    }
}

/// A domain event recorded in an account's stream.
#[derive(Clone, Copy, Debug, PartialEq, Eq)]
pub enum TransactionEvent {
    WasOpened { tx_id: u32, account_holder_id: u16, transaction: Transaction },
    DepositWasRecorded { amount: Decimal, transaction: Transaction },
    WithdrawalWasRecorded { amount: Decimal, transaction: Transaction },
    DisputeWasRecorded { tx_id: u32, amount: Decimal },
    ResolveWasRecorded { tx_id: u32, amount: Decimal },
    ChargebackWasRecorded { tx_id: u32, amount: Decimal },
}

/// Everything that can go wrong when commanding an account.
#[derive(Clone, Copy, Debug, PartialEq, Eq, Structural)]
pub enum BankAccountError {
    /// A non-opening event or command reached an account that does not exist.
    NotOpenedYet,
    /// An opening event reached an account that already exists.
    AlreadyOpened,
    /// The named transaction carries a negative amount.
    NegativeTransactionAttempted(u32),
    /// A deposit or withdrawal carries no amount.
    NoMoneyDeposited,
    /// A withdrawal asks for more than is available.
    InsufficientFunds,
    /// The named transaction is unknown or in the wrong state for the command.
    WrongTransactionRecipient(u32),
    /// The named transaction id was already recorded for this account.
    DuplicateTransactionRecipient(u32),
    /// A dispute refers to a transaction that moves no money, or carries a
    /// negative amount.
    InvalidTransactionDispute,
    /// A chargeback refers to a transaction that moves no money, or asks for
    /// more than is held.
    InvalidTransactionChargeBack,
    /// A resolve refers to a transaction that moves no money, or asks for
    /// more than is held.
    InsufficientHeldFunds,
    /// A command reached an account that a chargeback has frozen.
    LockedAccount { id: u16, tx: u32 },
    /// A balance would leave the representable range of amounts.
    NumericOverflow,
}

/// The funds of an account. The total is the sum of the two fields.
#[derive(Clone, Copy, Debug, PartialEq, Eq, Structural)]
pub struct Balance {
    /// Funds free for withdrawal.
    pub available: Decimal,
    /// Funds frozen under dispute.
    pub held: Decimal,
}

impl Balance {
    /// A balance with the given available funds and nothing held.
    pub fn new(available: Decimal) -> (r: Balance)
        ensures
            r.available == available,
            r.held@ == 0,
    {
        Balance { available, held: Decimal::zero() }
    }
}

impl Default for Balance {
    /// The empty balance.
    fn default() -> (r: Balance)
        ensures
            r.available@ == 0,
            r.held@ == 0,
    {
        Balance { available: Decimal::zero(), held: Decimal::zero() }
    }
}

/// The final projection of an account, with every monetary field rounded to
/// four fractional digits.
#[derive(Clone, Copy, Debug, PartialEq, Eq)]
pub struct AccountSnapShot {
    /// The client id.
    pub client: u16,
    /// Rounded available funds.
    pub available: Decimal,
    /// Rounded held funds.
    pub held: Decimal,
    /// The rounded sum of available and held funds.
    pub total: Decimal,
    /// Whether a chargeback has frozen the account.
    pub locked: bool,
}

/// The mathematical state of an account: balances in `10^-28` currency units
/// and the recorded transactions as a map.
pub struct AccountView {
    pub id: u16,
    pub available: int,
    pub held: int,
    pub pending: Map<u32, Transaction>,
    pub locked: bool,
}

/// Well-formedness of an account: balances are in range and no money is
/// negatively held.
pub open spec fn account_wf(a: AccountView) -> bool {
    &&& dec_in_range(a.available)
    &&& dec_in_range(a.held)
    &&& a.held >= 0
}

/// One account aggregate.
#[derive(Debug)]
pub struct Account {
    /// The client id, which doubles as the aggregate id.
    pub id: u16,
    /// The account's funds.
    pub balance: Balance,
    /// Every deposit and withdrawal this account has recorded, keyed by
    /// transaction id, with its current dispute status.
    pub pending_transactions: HashMap<u32, Transaction>,
    /// Whether a chargeback has frozen the account.
    pub locked: bool,
}

impl View for Account {
    type V = AccountView;

    open spec fn view(&self) -> AccountView {
        AccountView {
            id: self.id,
            available: self.balance.available@,
            held: self.balance.held@,
            pending: self.pending_transactions@,
            locked: self.locked,
        }
    }
}

impl Clone for Account {
    /// An exact copy of the account state.
    fn clone(&self) -> (r: Account)
        ensures
            r@ == self@,
    {
        Account {
            id: self.id,
            balance: self.balance,
            pending_transactions: self.pending_transactions.clone(),
            locked: self.locked,
        }
    }
}

/// The view of an optional account.
pub open spec fn opt_account_view(state: Option<Account>) -> Option<AccountView> {
    match state {
        Some(a) => Some(a@),
        None => None,
    }
}

/// Whether an executable transition outcome carries the state and error of a
/// mathematical one.
pub open spec fn apply_result_matches(
    r: Result<Account, BankAccountError>,
    s: Result<AccountView, BankAccountError>,
) -> bool {
    match r {
        Ok(a) => s matches Ok(v) && a@ == v,
        Err(e) => s matches Err(e2) && e == e2,
    }
}

/// The transition function of the account state machine, on mathematical
/// state. [`Account::apply`] returns exactly what this function says.
pub open spec fn spec_apply(state: Option<AccountView>, event: TransactionEvent) -> Result<
    AccountView,
    BankAccountError,
> {
    match state {
        None => match event {
            TransactionEvent::WasOpened { tx_id, account_holder_id, transaction } => {
                match transaction.amount {
                    None => Err(BankAccountError::NoMoneyDeposited),
                    Some(a) => if a@ < 0 {
                        Err(BankAccountError::NegativeTransactionAttempted(tx_id))
                    } else if a@ > DEC_LIMIT {
                        Err(BankAccountError::NumericOverflow)
                    } else {
                        Ok(
                            AccountView {
                                id: account_holder_id,
                                available: a@,
                                held: 0,
                                pending: Map::empty().insert(tx_id, transaction),
                                locked: false,
                            },
                        )
                    },
                }
            },
            _ => Err(BankAccountError::NotOpenedYet),
        },
        Some(acc) => match event {
            TransactionEvent::WasOpened { .. } => Err(BankAccountError::AlreadyOpened),
            TransactionEvent::DepositWasRecorded { amount, transaction } => {
                if !dec_in_range(acc.available + amount@) {
                    Err(BankAccountError::NumericOverflow)
                } else {
                    Ok(
                        AccountView {
                            available: acc.available + amount@,
                            pending: acc.pending.insert(transaction.tx_id, transaction),
                            ..acc
                        },
                    )
                }
            },
            TransactionEvent::WithdrawalWasRecorded { amount, transaction } => {
                if !dec_in_range(acc.available - amount@) {
                    Err(BankAccountError::NumericOverflow)
                } else {
                    Ok(
                        AccountView {
                            available: acc.available - amount@,
                            pending: acc.pending.insert(transaction.tx_id, transaction),
                            ..acc
                        },
                    )
                }
            },
            TransactionEvent::DisputeWasRecorded { tx_id, amount } => {
                if !acc.pending.contains_key(tx_id) {
                    Err(BankAccountError::WrongTransactionRecipient(tx_id))
                } else {
                    let t = acc.pending[tx_id];
                    let marked = acc.pending.insert(
                        tx_id,
                        Transaction { status: Status::Disputed, ..t },
                    );
                    match t.transaction_type {
                        TransactionType::Deposit => if amount@ < 0 {
                            Err(BankAccountError::InvalidTransactionDispute)
                        } else if !dec_in_range(acc.available - amount@) || !dec_in_range(
                            acc.held + amount@,
                        ) {
                            Err(BankAccountError::NumericOverflow)
                        } else {
                            Ok(
                                AccountView {
                                    available: acc.available - amount@,
                                    held: acc.held + amount@,
                                    pending: marked,
                                    ..acc
                                },
                            )
                        },
                        TransactionType::Withdrawal => if amount@ < 0 {
                            Err(BankAccountError::InvalidTransactionDispute)
                        } else if !dec_in_range(acc.held + amount@) {
                            Err(BankAccountError::NumericOverflow)
                        } else if acc.available >= amount@ && !dec_in_range(
                            acc.available - amount@,
                        ) {
                            Err(BankAccountError::NumericOverflow)
                        } else {
                            Ok(
                                AccountView {
                                    available: if acc.available >= amount@ {
                                        acc.available - amount@
                                    } else {
                                        acc.available
                                    },
                                    held: acc.held + amount@,
                                    pending: marked,
                                    ..acc
                                },
                            )
                        },
                        _ => Err(BankAccountError::InvalidTransactionDispute),
                    }
                }
            },
            TransactionEvent::ResolveWasRecorded { tx_id, amount } => {
                if !acc.pending.contains_key(tx_id) {
                    Err(BankAccountError::WrongTransactionRecipient(tx_id))
                } else {
                    let t = acc.pending[tx_id];
                    let moves = t.transaction_type is Deposit || t.transaction_type is Withdrawal;
                    if !(moves && acc.held >= amount@) {
                        Err(BankAccountError::InsufficientHeldFunds)
                    } else if !dec_in_range(acc.held - amount@) || !dec_in_range(
                        acc.available + amount@,
                    ) {
                        Err(BankAccountError::NumericOverflow)
                    } else {
                        Ok(
                            AccountView {
                                available: acc.available + amount@,
                                held: acc.held - amount@,
                                pending: acc.pending.insert(
                                    tx_id,
                                    Transaction { status: Status::Settled, ..t },
                                ),
                                ..acc
                            },
                        )
                    }
                }
            },
            TransactionEvent::ChargebackWasRecorded { tx_id, amount } => {
                if !acc.pending.contains_key(tx_id) {
                    Err(BankAccountError::WrongTransactionRecipient(tx_id))
                } else {
                    let t = acc.pending[tx_id];
                    let moves = t.transaction_type is Deposit || t.transaction_type is Withdrawal;
                    if !(moves && acc.held >= amount@) {
                        Err(BankAccountError::InvalidTransactionChargeBack)
                    } else if !dec_in_range(acc.held - amount@) {
                        Err(BankAccountError::NumericOverflow)
                    } else {
                        Ok(
                            AccountView {
                                held: acc.held - amount@,
                                pending: acc.pending.insert(
                                    tx_id,
                                    Transaction { status: Status::ChargedBack, ..t },
                                ),
                                locked: true,
                                ..acc
                            },
                        )
                    }
                }
            },
        },
    }
}

/// The transition function keeps every account well formed: held funds stay
/// non-negative and balances stay in range, whatever the event.
pub proof fn lemma_apply_preserves_wf(state: Option<AccountView>, event: TransactionEvent)
    requires
        state matches Some(a) ==> account_wf(a),
    ensures
        spec_apply(state, event) matches Ok(a2) ==> account_wf(a2),
{
}

impl Account {
    /// The client id this aggregate belongs to.
    pub fn aggregate_id(&self) -> (r: &u16)
        ensures
            *r == self@.id,
    {
        &self.id
    }

    /// Applies one domain event to the account state, or reports why the
    /// event cannot apply. Returns exactly what [`spec_apply`] says on the
    /// views, and never mutates on failure.
    pub fn apply(state: Option<Account>, event: TransactionEvent) -> (r: Result<
        Account,
        BankAccountError,
    >)
        ensures
            apply_result_matches(r, spec_apply(opt_account_view(state), event)),
    {
        let ghost s = opt_account_view(state);
        match state {
            None => match event {
                TransactionEvent::WasOpened { tx_id, account_holder_id, transaction } => {
                    let amount = match transaction.amount {
                        None => {
                            return Err(BankAccountError::NoMoneyDeposited);
                        },
                        Some(a) => a,
                    };
                    if amount.is_negative() {
                        return Err(BankAccountError::NegativeTransactionAttempted(tx_id));
                    }
                    if amount.units > DEC_LIMIT {
                        return Err(BankAccountError::NumericOverflow);
                    }
                    let mut pending: HashMap<u32, Transaction> = HashMap::new();
                    pending.insert(tx_id, transaction);
                    Ok(
                        Account {
                            id: account_holder_id,
                            balance: Balance::new(amount),
                            pending_transactions: pending,
                            locked: false,
                        },
                    )
                },
                _ => Err(BankAccountError::NotOpenedYet),
            },
            Some(mut account) => match event {
                TransactionEvent::WasOpened { .. } => Err(BankAccountError::AlreadyOpened),
                TransactionEvent::DepositWasRecorded { amount, transaction } => {
                    match account.balance.available.checked_add(amount) {
                        None => Err(BankAccountError::NumericOverflow),
                        Some(v) => {
                            account.balance.available = v;
                            account.pending_transactions.insert(transaction.tx_id, transaction);
                            Ok(account)
                        },
                    }
                },
                TransactionEvent::WithdrawalWasRecorded { amount, transaction } => {
                    match account.balance.available.checked_sub(amount) {
                        None => Err(BankAccountError::NumericOverflow),
                        Some(v) => {
                            account.balance.available = v;
                            account.pending_transactions.insert(transaction.tx_id, transaction);
                            Ok(account)
                        },
                    }
                },
                TransactionEvent::DisputeWasRecorded { tx_id, amount } => {
                    let t = match account.pending_transactions.get(&tx_id) {
                        None => {
                            return Err(BankAccountError::WrongTransactionRecipient(tx_id));
                        },
                        Some(t) => *t,
                    };
                    match t.transaction_type {
                        TransactionType::Deposit => {
                            if amount.is_negative() {
                                return Err(BankAccountError::InvalidTransactionDispute);
                            }
                            let av = match account.balance.available.checked_sub(amount) {
                                None => {
                                    return Err(BankAccountError::NumericOverflow);
                                },
                                Some(v) => v,
                            };
                            let hd = match account.balance.held.checked_add(amount) {
                                None => {
                                    return Err(BankAccountError::NumericOverflow);
                                },
                                Some(v) => v,
                            };
                            account.balance.available = av;
                            account.balance.held = hd;
                            account.pending_transactions.insert(
                                tx_id,
                                Transaction { status: Status::Disputed, ..t },
                            );
                            Ok(account)
                        },
                        TransactionType::Withdrawal => {
                            if amount.is_negative() {
                                return Err(BankAccountError::InvalidTransactionDispute);
                            }
                            let hd = match account.balance.held.checked_add(amount) {
                                None => {
                                    return Err(BankAccountError::NumericOverflow);
                                },
                                Some(v) => v,
                            };
                            if account.balance.available.ge(&amount) {
                                let av = match account.balance.available.checked_sub(amount) {
                                    None => {
                                        return Err(BankAccountError::NumericOverflow);
                                    },
                                    Some(v) => v,
                                };
                                account.balance.available = av;
                            }
                            account.balance.held = hd;
                            account.pending_transactions.insert(
                                tx_id,
                                Transaction { status: Status::Disputed, ..t },
                            );
                            Ok(account)
                        },
                        _ => Err(BankAccountError::InvalidTransactionDispute),
                    }
                },
                TransactionEvent::ResolveWasRecorded { tx_id, amount } => {
                    let t = match account.pending_transactions.get(&tx_id) {
                        None => {
                            return Err(BankAccountError::WrongTransactionRecipient(tx_id));
                        },
                        Some(t) => *t,
                    };
                    let moves = matches!(t.transaction_type, TransactionType::Deposit) || matches!(
                        t.transaction_type,
                        TransactionType::Withdrawal,
                    );
                    if !(moves && account.balance.held.ge(&amount)) {
                        return Err(BankAccountError::InsufficientHeldFunds);
                    }
                    let hd = match account.balance.held.checked_sub(amount) {
                        None => {
                            return Err(BankAccountError::NumericOverflow);
                        },
                        Some(v) => v,
                    };
                    let av = match account.balance.available.checked_add(amount) {
                        None => {
                            return Err(BankAccountError::NumericOverflow);
                        },
                        Some(v) => v,
                    };
                    account.balance.held = hd;
                    account.balance.available = av;
                    account.pending_transactions.insert(
                        tx_id,
                        Transaction { status: Status::Settled, ..t },
                    );
                    Ok(account)
                },
                TransactionEvent::ChargebackWasRecorded { tx_id, amount } => {
                    let t = match account.pending_transactions.get(&tx_id) {
                        None => {
                            return Err(BankAccountError::WrongTransactionRecipient(tx_id));
                        },
                        Some(t) => *t,
                    };
                    let moves = matches!(t.transaction_type, TransactionType::Deposit) || matches!(
                        t.transaction_type,
                        TransactionType::Withdrawal,
                    );
                    if !(moves && account.balance.held.ge(&amount)) {
                        return Err(BankAccountError::InvalidTransactionChargeBack);
                    }
                    let hd = match account.balance.held.checked_sub(amount) {
                        None => {
                            return Err(BankAccountError::NumericOverflow);
                        },
                        Some(v) => v,
                    };
                    account.balance.held = hd;
                    account.locked = true;
                    account.pending_transactions.insert(
                        tx_id,
                        Transaction { status: Status::ChargedBack, ..t },
                    );
                    Ok(account)
                },
            },
        }
    }
}

impl Message for Transaction {
    /// The domain name of an inbound transaction.
    fn name(&self) -> (r: &'static str)
        ensures
            r@ == "InboundTransaction"@,
    {
        "InboundTransaction"
    }
}

impl Message for TransactionEvent {
    /// The domain name of the event variant.
    fn name(&self) -> (r: &'static str)
        ensures
            match *self {
                TransactionEvent::WasOpened { .. } => r@ == "Opened"@,
                TransactionEvent::DepositWasRecorded { .. } => r@ == "Deposit"@,
                TransactionEvent::WithdrawalWasRecorded { .. } => r@ == "Withdrawal"@,
                TransactionEvent::DisputeWasRecorded { .. } => r@ == "Dispute"@,
                TransactionEvent::ResolveWasRecorded { .. } => r@ == "Resolve"@,
                TransactionEvent::ChargebackWasRecorded { .. } => r@ == "Chargeback"@,
            },
    {
        match self {
            TransactionEvent::WasOpened { .. } => "Opened",
            TransactionEvent::DepositWasRecorded { .. } => "Deposit",
            TransactionEvent::WithdrawalWasRecorded { .. } => "Withdrawal",
            TransactionEvent::DisputeWasRecorded { .. } => "Dispute",
            TransactionEvent::ResolveWasRecorded { .. } => "Resolve",
            TransactionEvent::ChargebackWasRecorded { .. } => "Chargeback",
        }
    }
}

impl Aggregate for Account {
    type Id = u16;

    type Event = TransactionEvent;

    type Error = BankAccountError;

    /// The unique name of this aggregate type.
    fn type_label() -> (r: &'static str)
        ensures
            r@ == "Account"@,
    {
        "Account"
    }

    /// The client id this aggregate belongs to.
    fn aggregate_id(&self) -> (r: &u16)
        ensures
            *r == self@.id,
    {
        Account::aggregate_id(self)
    }

    /// Applies one domain event; see [`spec_apply`].
    fn apply(state: Option<Account>, event: TransactionEvent) -> (r: Result<
        Account,
        BankAccountError,
    >)
        ensures
            apply_result_matches(r, spec_apply(opt_account_view(state), event)),
    {
        Account::apply(state, event)
    }
}

/// The opening event a deposit command produces for a fresh account.
pub open spec fn open_event(tx: Transaction) -> TransactionEvent {
    TransactionEvent::WasOpened { tx_id: tx.tx_id, account_holder_id: tx.client_id, transaction: tx }
}

/// What a deposit command decides on a given account state: the event it
/// records, or the error it rejects with. Guards run in order: a frozen
/// account, a missing amount, a negative amount, a duplicate transaction id.
pub open spec fn spec_deposit(acc: AccountView, tx: Transaction) -> Result<
    TransactionEvent,
    BankAccountError,
> {
    if acc.locked {
        Err(BankAccountError::LockedAccount { id: tx.client_id, tx: tx.tx_id })
    } else {
        match tx.amount {
            None => Err(BankAccountError::NoMoneyDeposited),
            Some(a) => if a@ < 0 {
                Err(BankAccountError::NegativeTransactionAttempted(tx.tx_id))
            } else if acc.pending.contains_key(tx.tx_id) {
                Err(BankAccountError::DuplicateTransactionRecipient(tx.tx_id))
            } else {
                Ok(TransactionEvent::DepositWasRecorded { amount: a, transaction: tx })
            },
        }
    }
}

/// What a withdrawal command decides. Guards run in order: a frozen account,
/// a missing amount, a negative amount, insufficient available funds, a
/// duplicate transaction id.
pub open spec fn spec_withdrawal(acc: AccountView, tx: Transaction) -> Result<
    TransactionEvent,
    BankAccountError,
> {
    if acc.locked {
        Err(BankAccountError::LockedAccount { id: tx.client_id, tx: tx.tx_id })
    } else {
        match tx.amount {
            None => Err(BankAccountError::NoMoneyDeposited),
            Some(a) => if a@ < 0 {
                Err(BankAccountError::NegativeTransactionAttempted(tx.tx_id))
            } else if acc.available < a@ {
                Err(BankAccountError::InsufficientFunds)
            } else if acc.pending.contains_key(tx.tx_id) {
                Err(BankAccountError::DuplicateTransactionRecipient(tx.tx_id))
            } else {
                Ok(TransactionEvent::WithdrawalWasRecorded { amount: a, transaction: tx })
            },
        }
    }
}

/// What a dispute command decides: the referenced transaction must exist and
/// be open to dispute, and must carry an amount.
pub open spec fn spec_dispute(acc: AccountView, tx: Transaction) -> Result<
    TransactionEvent,
    BankAccountError,
> {
    if acc.locked {
        Err(BankAccountError::LockedAccount { id: tx.client_id, tx: tx.tx_id })
    } else if !(acc.pending.contains_key(tx.tx_id) && spec_can_be_disputed(acc.pending[tx.tx_id])) {
        Err(BankAccountError::WrongTransactionRecipient(tx.tx_id))
    } else {
        let d = acc.pending[tx.tx_id];
        match d.amount {
            None => Err(BankAccountError::NoMoneyDeposited),
            Some(a) => Ok(TransactionEvent::DisputeWasRecorded { tx_id: d.tx_id, amount: a }),
        }
    }
}

/// What a resolve command decides: the referenced transaction must exist and
/// be under dispute, and must carry an amount.
pub open spec fn spec_resolve(acc: AccountView, tx: Transaction) -> Result<
    TransactionEvent,
    BankAccountError,
> {
    if acc.locked {
        Err(BankAccountError::LockedAccount { id: tx.client_id, tx: tx.tx_id })
    } else if !(acc.pending.contains_key(tx.tx_id) && spec_can_complete_dispute(
        acc.pending[tx.tx_id],
    )) {
        Err(BankAccountError::WrongTransactionRecipient(tx.tx_id))
    } else {
        let d = acc.pending[tx.tx_id];
        match d.amount {
            None => Err(BankAccountError::NoMoneyDeposited),
            Some(a) => Ok(TransactionEvent::ResolveWasRecorded { tx_id: d.tx_id, amount: a }),
        }
    }
}

/// What a chargeback command decides: the referenced transaction must exist
/// and be under dispute, and must carry an amount.
pub open spec fn spec_chargeback(acc: AccountView, tx: Transaction) -> Result<
    TransactionEvent,
    BankAccountError,
> {
    if acc.locked {
        Err(BankAccountError::LockedAccount { id: tx.client_id, tx: tx.tx_id })
    } else if !(acc.pending.contains_key(tx.tx_id) && spec_can_complete_dispute(
        acc.pending[tx.tx_id],
    )) {
        Err(BankAccountError::WrongTransactionRecipient(tx.tx_id))
    } else {
        let d = acc.pending[tx.tx_id];
        match d.amount {
            None => Err(BankAccountError::NoMoneyDeposited),
            Some(a) => Ok(TransactionEvent::ChargebackWasRecorded { tx_id: d.tx_id, amount: a }),
        }
    }
}

/// The root recorded exactly the one event `ev`: the aggregate advanced as
/// the transition function says, the version grew by one, and the event
/// joined both the uncommitted buffer and the history.
pub open spec fn recorded_one(prev: Root, next: Root, ev: TransactionEvent) -> bool {
    &&& spec_apply(Some(prev.aggregate@), ev) matches Ok(a) && next.aggregate@ == a
    &&& next.version == prev.version + 1
    &&& next.recorded_events@ == prev.recorded_events@.push(Envelope { message: ev })
    &&& next.history@ == prev.history@.push(ev)
}

/// The complete outcome of one guarded command on a root, given the
/// command's decision: a rejected command changes nothing and reports the
/// guard error; an accepted one records its event unless the transition
/// function rejects it or the version space is exhausted, in which case
/// nothing changes.
pub open spec fn command_result(
    prev: Root,
    decision: Result<TransactionEvent, BankAccountError>,
    r: Result<(), BankAccountError>,
    next: Root,
) -> bool {
    match decision {
        Err(e0) => r == Err::<(), BankAccountError>(e0) && next == prev,
        Ok(ev) => match r {
            Ok(()) => prev.version < u64::MAX && recorded_one(prev, next, ev),
            Err(e) => next == prev && if prev.version == u64::MAX {
                e == BankAccountError::NumericOverflow
            } else {
                spec_apply(Some(prev.aggregate@), ev) matches Err(e2) && e == e2
            },
        },
    }
}

/// The projection of an account into its final snapshot: each monetary field
/// rounded to four fractional digits, the total being the rounded exact sum.
pub open spec fn spec_snapshot(a: AccountView) -> AccountSnapShot {
    AccountSnapShot {
        client: a.id,
        available: Decimal { units: round_snap(a.available) as i128 },
        held: Decimal { units: round_snap(a.held) as i128 },
        total: Decimal { units: round_snap(a.available + a.held) as i128 },
        locked: a.locked,
    }
}

/// The account aggregate root: the handle through which the five client
/// commands reach an account, each guarded as the command layer requires.
pub struct BankAccountRoot(pub Root);

impl From<Root> for BankAccountRoot {
    /// Wraps a generic root.
    fn from(root: Root) -> (r: BankAccountRoot) {
        BankAccountRoot(root)
    }
}

impl vstd::std_specs::convert::FromSpecImpl<Root> for BankAccountRoot {
    open spec fn obeys_from_spec() -> bool {
        true
    }

    open spec fn from_spec(root: Root) -> BankAccountRoot {
        BankAccountRoot(root)
    }
}

impl BankAccountRoot {
    /// The wrapped aggregate root.
    pub fn into_root(self) -> (r: Root)
        ensures
            r == self.0,
    {
        self.0
    }

    /// Opens a fresh account from its first deposit. Succeeds exactly when
    /// the opening event applies to the empty state: an amount is present,
    /// non-negative and in range.
    pub fn open(transaction: Transaction) -> (r: Result<BankAccountRoot, BankAccountError>)
        ensures
            match r {
                Ok(root) => {
                    &&& spec_apply(None, open_event(transaction)) matches Ok(a)
                        && root.0.aggregate@ == a
                    &&& root.0.version == 1
                    &&& root.0.recorded_events@ =~= seq![
                        Envelope { message: open_event(transaction) },
                    ]
                    &&& root.0.history@ =~= seq![open_event(transaction)]
                    &&& root_wf(root.0)
                },
                Err(e) => spec_apply(None, open_event(transaction)) matches Err(e2) && e == e2,
            },
    {
        let event = TransactionEvent::WasOpened {
            account_holder_id: transaction.client_id,
            tx_id: transaction.tx_id,
            transaction,
        };
        match Root::record_new(Envelope::from(event)) {
            Ok(root) => Ok(BankAccountRoot(root)),
            Err(e) => Err(e),
        }
    }

    /// Records a deposit; see [`spec_deposit`] for the guards and
    /// [`command_result`] for the complete outcome.
    pub fn deposit(&mut self, transaction: Transaction) -> (r: Result<(), BankAccountError>)
        ensures
            command_result(
                old(self).0,
                spec_deposit(old(self).0.aggregate@, transaction),
                r,
                final(self).0,
            ),
            root_wf(old(self).0) ==> root_wf(final(self).0),
    {
        if self.0.aggregate.locked {
            return Err(
                BankAccountError::LockedAccount { id: transaction.client_id, tx: transaction.tx_id },
            );
        }
        let amount = match transaction.amount {
            None => {
                return Err(BankAccountError::NoMoneyDeposited);
            },
            Some(a) => a,
        };
        if amount.is_negative() {
            return Err(BankAccountError::NegativeTransactionAttempted(transaction.tx_id));
        }
        if self.0.aggregate.pending_transactions.contains_key(&transaction.tx_id) {
            return Err(BankAccountError::DuplicateTransactionRecipient(transaction.tx_id));
        }
        self.0.record_that(
            Envelope::from(TransactionEvent::DepositWasRecorded { amount, transaction }),
        )
    }

    /// Records a withdrawal; see [`spec_withdrawal`] for the guards and
    /// [`command_result`] for the complete outcome.
    pub fn withdrawal(&mut self, transaction: Transaction) -> (r: Result<(), BankAccountError>)
        ensures
            command_result(
                old(self).0,
                spec_withdrawal(old(self).0.aggregate@, transaction),
                r,
                final(self).0,
            ),
            root_wf(old(self).0) ==> root_wf(final(self).0),
    {
        if self.0.aggregate.locked {
            return Err(
                BankAccountError::LockedAccount { id: transaction.client_id, tx: transaction.tx_id },
            );
        }
        let amount = match transaction.amount {
            None => {
                return Err(BankAccountError::NoMoneyDeposited);
            },
            Some(a) => a,
        };
        if amount.is_negative() {
            return Err(BankAccountError::NegativeTransactionAttempted(transaction.tx_id));
        }
        if self.0.aggregate.balance.available.lt(&amount) {
            return Err(BankAccountError::InsufficientFunds);
        }
        if self.0.aggregate.pending_transactions.contains_key(&transaction.tx_id) {
            return Err(BankAccountError::DuplicateTransactionRecipient(transaction.tx_id));
        }
        self.0.record_that(
            Envelope::from(TransactionEvent::WithdrawalWasRecorded { amount, transaction }),
        )
    }

    /// Opens a dispute on a recorded transaction; see [`spec_dispute`] for
    /// the guards and [`command_result`] for the complete outcome.
    pub fn dispute(&mut self, transaction: Transaction) -> (r: Result<(), BankAccountError>)
        ensures
            command_result(
                old(self).0,
                spec_dispute(old(self).0.aggregate@, transaction),
                r,
                final(self).0,
            ),
            root_wf(old(self).0) ==> root_wf(final(self).0),
    {
        if self.0.aggregate.locked {
            return Err(
                BankAccountError::LockedAccount { id: transaction.client_id, tx: transaction.tx_id },
            );
        }
        let disputed = match self.0.aggregate.pending_transactions.get(&transaction.tx_id) {
            Some(d) => *d,
            None => {
                return Err(BankAccountError::WrongTransactionRecipient(transaction.tx_id));
            },
        };
        if !disputed.can_be_disputed() {
            return Err(BankAccountError::WrongTransactionRecipient(transaction.tx_id));
        }
        let amount = match disputed.amount {
            None => {
                return Err(BankAccountError::NoMoneyDeposited);
            },
            Some(a) => a,
        };
        self.0.record_that(
            Envelope::from(TransactionEvent::DisputeWasRecorded { tx_id: disputed.tx_id, amount }),
        )
    }

    /// Resolves a disputed transaction; see [`spec_resolve`] for the guards
    /// and [`command_result`] for the complete outcome.
    pub fn resolve(&mut self, transaction: Transaction) -> (r: Result<(), BankAccountError>)
        ensures
            command_result(
                old(self).0,
                spec_resolve(old(self).0.aggregate@, transaction),
                r,
                final(self).0,
            ),
            root_wf(old(self).0) ==> root_wf(final(self).0),
    {
        if self.0.aggregate.locked {
            return Err(
                BankAccountError::LockedAccount { id: transaction.client_id, tx: transaction.tx_id },
            );
        }
        let disputed = match self.0.aggregate.pending_transactions.get(&transaction.tx_id) {
            Some(d) => *d,
            None => {
                return Err(BankAccountError::WrongTransactionRecipient(transaction.tx_id));
            },
        };
        if !disputed.can_complete_dispute() {
            return Err(BankAccountError::WrongTransactionRecipient(transaction.tx_id));
        }
        let amount = match disputed.amount {
            None => {
                return Err(BankAccountError::NoMoneyDeposited);
            },
            Some(a) => a,
        };
        self.0.record_that(
            Envelope::from(TransactionEvent::ResolveWasRecorded { tx_id: disputed.tx_id, amount }),
        )
    }

    /// Charges back a disputed transaction, freezing the account; see
    /// [`spec_chargeback`] for the guards and [`command_result`] for the
    /// complete outcome.
    pub fn chargeback(&mut self, transaction: Transaction) -> (r: Result<(), BankAccountError>)
        ensures
            command_result(
                old(self).0,
                spec_chargeback(old(self).0.aggregate@, transaction),
                r,
                final(self).0,
            ),
            root_wf(old(self).0) ==> root_wf(final(self).0),
    {
        if self.0.aggregate.locked {
            return Err(
                BankAccountError::LockedAccount { id: transaction.client_id, tx: transaction.tx_id },
            );
        }
        let disputed = match self.0.aggregate.pending_transactions.get(&transaction.tx_id) {
            Some(d) => *d,
            None => {
                return Err(BankAccountError::WrongTransactionRecipient(transaction.tx_id));
            },
        };
        if !disputed.can_complete_dispute() {
            return Err(BankAccountError::WrongTransactionRecipient(transaction.tx_id));
        }
        let amount = match disputed.amount {
            None => {
                return Err(BankAccountError::NoMoneyDeposited);
            },
            Some(a) => a,
        };
        self.0.record_that(
            Envelope::from(
                TransactionEvent::ChargebackWasRecorded { tx_id: disputed.tx_id, amount },
            ),
        )
    }

    /// The final projection of the account, every monetary field rounded to
    /// four fractional digits; the total is the rounded exact sum of
    /// available and held funds.
    pub fn snapshot(&self) -> (r: AccountSnapShot)
        requires
            account_wf(self.0.aggregate@),
        ensures
            r == spec_snapshot(self.0.aggregate@),
            r.available@ == round_snap(self.0.aggregate@.available),
            r.held@ == round_snap(self.0.aggregate@.held),
            r.total@ == round_snap(self.0.aggregate@.available + self.0.aggregate@.held),
    {
        let available = self.0.aggregate.balance.available;
        let held = self.0.aggregate.balance.held;
        let total = Decimal { units: available.units + held.units };
        AccountSnapShot {
            client: self.0.aggregate.id,
            available: available.round_dp4(),
            held: held.round_dp4(),
            total: total.round_dp4(),
            locked: self.0.aggregate.locked,
        }
    }
}

/// A snapshot always presents the rounded exact total of its account's
/// available and held funds, and every monetary field at four fractional
/// digits within the printable range.
pub proof fn lemma_snapshot_total(a: AccountView)
    requires
        account_wf(a),
    ensures
        spec_snapshot(a).total@ == round_snap(a.available + a.held),
        spec_snapshot(a).available@ == round_snap(a.available),
        spec_snapshot(a).held@ == round_snap(a.held),
        crate::codec::snapshot_wf(spec_snapshot(a)),
{
    crate::decimal::lemma_round_snap_props(a.available);
    crate::decimal::lemma_round_snap_props(a.held);
    crate::decimal::lemma_round_snap_props(a.available + a.held);
}

/// Whether every transaction recorded inside an account carries a
/// non-negative amount; every account built by the command layer does.
pub open spec fn pending_nonneg(a: AccountView) -> bool {
    forall|k: u32|
        a.pending.contains_key(k) ==> match (#[trigger] a.pending[k]).amount {
            Some(am) => am@ >= 0,
            None => true,
        }
}

/// Available funds never drop below zero except by a dispute: every other
/// accepted command keeps a non-negative available balance non-negative.
pub proof fn lemma_available_nonneg_unless_dispute(acc: AccountView, tx: Transaction)
    requires
        account_wf(acc),
        pending_nonneg(acc),
        acc.available >= 0,
    ensures
        spec_deposit(acc, tx) matches Ok(ev) ==> (spec_apply(Some(acc), ev) matches Ok(a2)
            ==> a2.available >= 0),
        spec_withdrawal(acc, tx) matches Ok(ev) ==> (spec_apply(Some(acc), ev) matches Ok(a2)
            ==> a2.available >= 0),
        spec_resolve(acc, tx) matches Ok(ev) ==> (spec_apply(Some(acc), ev) matches Ok(a2)
            ==> a2.available >= 0),
        spec_chargeback(acc, tx) matches Ok(ev) ==> (spec_apply(Some(acc), ev) matches Ok(a2)
            ==> a2.available >= 0),
{
}

/// A frozen account rejects every command, with the lock error, before
/// anything else is considered.
pub proof fn lemma_locked_account_rejects(acc: AccountView, tx: Transaction)
    requires
        acc.locked,
    ensures
        spec_deposit(acc, tx) == Err::<TransactionEvent, BankAccountError>(
            BankAccountError::LockedAccount { id: tx.client_id, tx: tx.tx_id },
        ),
        spec_withdrawal(acc, tx) == Err::<TransactionEvent, BankAccountError>(
            BankAccountError::LockedAccount { id: tx.client_id, tx: tx.tx_id },
        ),
        spec_dispute(acc, tx) == Err::<TransactionEvent, BankAccountError>(
            BankAccountError::LockedAccount { id: tx.client_id, tx: tx.tx_id },
        ),
        spec_resolve(acc, tx) == Err::<TransactionEvent, BankAccountError>(
            BankAccountError::LockedAccount { id: tx.client_id, tx: tx.tx_id },
        ),
        spec_chargeback(acc, tx) == Err::<TransactionEvent, BankAccountError>(
            BankAccountError::LockedAccount { id: tx.client_id, tx: tx.tx_id },
        ),
{
}

} // verus!
