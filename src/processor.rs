use std::collections::HashMap;
use vstd::prelude::*;

use crate::transaction::{ClientAccount, ClientId, Transaction, TransactionType, TxId};

verus! {

broadcast use vstd::std_specs::hash::group_hash_axioms;

/// Where a deposit stands in the dispute lifecycle:
/// `Normal -> Disputed -> Resolved | ChargedBack`.
#[derive(Debug, Clone, Copy, PartialEq, Eq, Structural)]
pub enum DisputeState {
    Normal,
    Disputed,
    Resolved,
    ChargedBack,
}

/// Why a transaction was rejected.
#[derive(Debug, Clone, Copy, PartialEq, Eq, Structural)]
pub enum ErrorKind {
    AccountNotFound,
    AccountFrozen,
    AmountMissing,
    NonPositiveAmount,
    InsufficientFunds,
    ReferencedTransactionNotFound,
    ClientMismatch,
    InvalidDisputeState,
    /// A balance would leave the range of the fixed-point representation.
    BalanceOverflow,
}

/// The mathematical state of the engine: the accounts by client, the
/// accepted deposits and withdrawals in order, and the dispute state of each
/// of those records, index for index.
pub ghost struct LedgerModel {
    pub accounts: Map<ClientId, ClientAccount>,
    pub history: Seq<Transaction>,
    pub states: Seq<DisputeState>,
}

pub open spec fn fits_i64(x: int) -> bool {
    i64::MIN <= x <= i64::MAX
}

/// The amount a recorded deposit or withdrawal carries.
pub open spec fn amount_of(t: Transaction) -> int {
    match t.amount {
        Some(a) => a as int,
        None => 0,
    }
}

/// The account with each balance moved by the given deltas, and locked if
/// `lock` is set; `BalanceOverflow` where a balance would not fit.
pub open spec fn adjusted(
    acc: ClientAccount,
    d_available: int,
    d_held: int,
    d_total: int,
    lock: bool,
) -> Result<ClientAccount, ErrorKind> {
    if fits_i64(acc.available + d_available) && fits_i64(acc.held + d_held) && fits_i64(
        acc.total + d_total,
    ) {
        Ok(
            ClientAccount {
                available: (acc.available + d_available) as i64,
                held: (acc.held + d_held) as i64,
                total: (acc.total + d_total) as i64,
                locked: acc.locked || lock,
            },
        )
    } else {
        Err(ErrorKind::BalanceOverflow)
    }
}

/// What the history may hold: a deposit or withdrawal of a positive amount.
pub open spec fn is_record(t: Transaction) -> bool {
    &&& (t.kind == TransactionType::Deposit || t.kind == TransactionType::Withdrawal)
    &&& t.amount.is_some()
    &&& amount_of(t) > 0
}

pub open spec fn is_deposit_of(t: Transaction, id: TxId) -> bool {
    t.kind == TransactionType::Deposit && t.tx == id
}

/// The first index at or after `i` of a deposit with id `id`.
pub open spec fn find_deposit_from(h: Seq<Transaction>, id: TxId, i: int) -> Option<int>
    decreases h.len() - i,
{
    if i < 0 || i >= h.len() {
        None
    } else if is_deposit_of(h[i], id) {
        Some(i)
    } else {
        find_deposit_from(h, id, i + 1)
    }
}

/// A found index lies in range, at or after the start, and holds a deposit
/// with the id sought.
pub proof fn lemma_find_deposit_from(h: Seq<Transaction>, id: TxId, j: int)
    ensures
        find_deposit_from(h, id, j) matches Some(i) ==> j <= i < h.len() && is_deposit_of(h[i], id),
    decreases h.len() - j,
{
    if 0 <= j < h.len() && !is_deposit_of(h[j], id) {
        lemma_find_deposit_from(h, id, j + 1);
    }
}

/// Recording `t` after `h` leaves every id found in `h` where it was, and
/// finds `t` itself where it is the first deposit of its id.
pub proof fn lemma_find_deposit_push(h: Seq<Transaction>, t: Transaction, id: TxId, j: int)
    requires
        0 <= j <= h.len(),
    ensures
        find_deposit_from(h.push(t), id, j) == match find_deposit_from(h, id, j) {
            Some(i) => Some(i),
            None => if is_deposit_of(t, id) {
                Some(h.len() as int)
            } else {
                None
            },
        },
    decreases h.len() - j,
{
    let g = h.push(t);
    if j < h.len() {
        assert(g[j] == h[j]);
        lemma_find_deposit_push(h, t, id, j + 1);
    } else {
        assert(g[j] == t);
        assert(find_deposit_from(g, id, j + 1) == None::<int>);
    }
}

/// The index of the first recorded deposit with id `id`.
pub open spec fn find_deposit(h: Seq<Transaction>, id: TxId) -> Option<int> {
    find_deposit_from(h, id, 0)
}

impl LedgerModel {
    /// Every account is balanced, every record is a deposit or withdrawal of
    /// a positive amount, and each record has its dispute state.
    pub open spec fn wf(self) -> bool {
        &&& forall|c: ClientId| #[trigger]
            self.accounts.contains_key(c) ==> self.accounts[c].wf()
        &&& forall|i: int| 0 <= i < self.history.len() ==> is_record(#[trigger] self.history[i])
        &&& self.states.len() == self.history.len()
    }

    pub open spec fn is_locked(self, c: ClientId) -> bool {
        self.accounts.contains_key(c) && self.accounts[c].locked
    }

    /// The account of a deposit: it may be new, and then starts empty.
    pub open spec fn deposit_outcome(self, t: Transaction) -> Result<ClientAccount, ErrorKind> {
        if self.is_locked(t.client) {
            Err(ErrorKind::AccountFrozen)
        } else {
            match t.amount {
                None => Err(ErrorKind::AmountMissing),
                Some(a) => if a <= 0 {
                    Err(ErrorKind::NonPositiveAmount)
                } else {
                    let acc = if self.accounts.contains_key(t.client) {
                        self.accounts[t.client]
                    } else {
                        ClientAccount { total: 0, available: 0, held: 0, locked: false }
                    };
                    adjusted(acc, a as int, 0, a as int, false)
                },
            }
        }
    }

    pub open spec fn withdrawal_outcome(self, t: Transaction) -> Result<ClientAccount, ErrorKind> {
        if !self.accounts.contains_key(t.client) {
            Err(ErrorKind::AccountNotFound)
        } else if self.accounts[t.client].locked {
            Err(ErrorKind::AccountFrozen)
        } else {
            match t.amount {
                None => Err(ErrorKind::AmountMissing),
                Some(a) => if a <= 0 {
                    Err(ErrorKind::NonPositiveAmount)
                } else if a > self.accounts[t.client].available {
                    Err(ErrorKind::InsufficientFunds)
                } else {
                    adjusted(self.accounts[t.client], -a, 0, -a, false)
                },
            }
        }
    }

    /// The index of the deposit that a dispute, resolve or chargeback refers
    /// to, where the account may act on it and the deposit is in `expected`.
    /// A locked account is reported first; a missing deposit before a
    /// missing account.
    pub open spec fn reference_outcome(self, t: Transaction, expected: DisputeState) -> Result<
        int,
        ErrorKind,
    > {
        if self.is_locked(t.client) {
            Err(ErrorKind::AccountFrozen)
        } else {
            match find_deposit(self.history, t.tx) {
                None => Err(ErrorKind::ReferencedTransactionNotFound),
                Some(i) => if !self.accounts.contains_key(t.client) {
                    Err(ErrorKind::AccountNotFound)
                } else if self.history[i].client != t.client {
                    Err(ErrorKind::ClientMismatch)
                } else if self.states[i] != expected {
                    Err(ErrorKind::InvalidDisputeState)
                } else {
                    Ok(i)
                },
            }
        }
    }

    /// The dispute state a referring transaction requires of its deposit.
    pub open spec fn expected_state(kind: TransactionType) -> DisputeState {
        match kind {
            TransactionType::Dispute => DisputeState::Normal,
            _ => DisputeState::Disputed,
        }
    }

    /// The dispute state a referring transaction leaves its deposit in.
    pub open spec fn next_state(kind: TransactionType) -> DisputeState {
        match kind {
            TransactionType::Dispute => DisputeState::Disputed,
            TransactionType::Resolve => DisputeState::Resolved,
            _ => DisputeState::ChargedBack,
        }
    }

    /// The account after a dispute, resolve or chargeback of a deposit of
    /// amount `a`.
    pub open spec fn settled(acc: ClientAccount, kind: TransactionType, a: int) -> Result<
        ClientAccount,
        ErrorKind,
    > {
        match kind {
            TransactionType::Dispute => adjusted(acc, -a, a, 0, false),
            TransactionType::Resolve => adjusted(acc, a, -a, 0, false),
            _ => adjusted(acc, 0, -a, -a, true),
        }
    }

    pub open spec fn referring_outcome(self, t: Transaction) -> Result<ClientAccount, ErrorKind> {
        match self.reference_outcome(t, Self::expected_state(t.kind)) {
            Err(e) => Err(e),
            Ok(i) => Self::settled(self.accounts[t.client], t.kind, amount_of(self.history[i])),
        }
    }

    /// Whether `t` is accepted, and if so the client's account after it.
    pub open spec fn outcome(self, t: Transaction) -> Result<ClientAccount, ErrorKind> {
        match t.kind {
            TransactionType::Deposit => self.deposit_outcome(t),
            TransactionType::Withdrawal => self.withdrawal_outcome(t),
            _ => self.referring_outcome(t),
        }
    }

    /// The state after applying `t`: unchanged where `t` is rejected.
    pub open spec fn apply(self, t: Transaction) -> LedgerModel {
        match self.outcome(t) {
            Err(_) => self,
            Ok(acc) => {
                let accounts = self.accounts.insert(t.client, acc);
                match t.kind {
                    TransactionType::Deposit | TransactionType::Withdrawal => LedgerModel {
                        accounts,
                        history: self.history.push(t),
                        states: self.states.push(DisputeState::Normal),
                    },
                    _ => LedgerModel {
                        accounts,
                        history: self.history,
                        states: self.states.update(
                            find_deposit(self.history, t.tx).unwrap(),
                            Self::next_state(t.kind),
                        ),
                    },
                }
            },
        }
    }
}


/// The engine: the accounts by client, and the accepted deposits and
/// withdrawals with the dispute state of each (`dispute_states[i]` belongs to
/// `past_transactions[i]`). `deposit_index` maps each deposit id to the
/// position of its first deposit in `past_transactions`.
pub struct BasicProcessor {
    pub client_accounts: HashMap<ClientId, ClientAccount>,
    pub past_transactions: Vec<Transaction>,
    pub dispute_states: Vec<DisputeState>,
    pub deposit_index: HashMap<TxId, usize>,
}

/// `index` holds, for each id that `h` has a deposit of, the position of its
/// first deposit, and no other id.
pub open spec fn indexes(index: Map<TxId, usize>, h: Seq<Transaction>) -> bool {
    forall|id: TxId|
        #![trigger index.contains_key(id)]
        #![trigger find_deposit(h, id)]
        {
            &&& index.contains_key(id) <==> find_deposit(h, id) is Some
            &&& index.contains_key(id) ==> find_deposit(h, id) == Some(index[id] as int)
        }
}

impl BasicProcessor {
    /// The ledger is well formed and the deposit index agrees with it.
    pub open spec fn wf(&self) -> bool {
        &&& self@.wf()
        &&& indexes(self.deposit_index@, self@.history)
    }
}

impl View for BasicProcessor {
    type V = LedgerModel;

    open spec fn view(&self) -> LedgerModel {
        LedgerModel {
            accounts: self.client_accounts@,
            history: self.past_transactions@,
            states: self.dispute_states@,
        }
    }
}

/// `acc` with each balance moved by the given deltas, or `BalanceOverflow`.
fn adjust(acc: ClientAccount, d_available: i64, d_held: i64, d_total: i64, lock: bool) -> (r:
    Result<ClientAccount, ErrorKind>)
    ensures
        r == adjusted(acc, d_available as int, d_held as int, d_total as int, lock),
{
    match (
        acc.available.checked_add(d_available),
        acc.held.checked_add(d_held),
        acc.total.checked_add(d_total),
    ) {
        (Some(available), Some(held), Some(total)) => Ok(
            ClientAccount { total, available, held, locked: acc.locked || lock },
        ),
        _ => Err(ErrorKind::BalanceOverflow),
    }
}

impl BasicProcessor {
    /// An engine over the given accounts and history; every record of the
    /// history starts undisputed.
    pub fn new(
        client_accounts: HashMap<ClientId, ClientAccount>,
        past_transactions: Vec<Transaction>,
    ) -> (r: Self)
        requires
            forall|c: ClientId| #[trigger]
                client_accounts@.contains_key(c) ==> client_accounts@[c].wf(),
            forall|i: int|
                0 <= i < past_transactions@.len() ==> is_record(#[trigger] past_transactions@[i]),
        ensures
            r@.accounts == client_accounts@,
            r@.history == past_transactions@,
            r@.states == Seq::new(past_transactions@.len(), |i: int| DisputeState::Normal),
            r.wf(),
    {
        let n = past_transactions.len();
        let mut dispute_states: Vec<DisputeState> = Vec::new();
        while dispute_states.len() < n
            invariant
                dispute_states@.len() <= n,
                forall|i: int|
                    0 <= i < dispute_states@.len() ==> dispute_states@[i] == DisputeState::Normal,
            decreases n - dispute_states@.len(),
        {
            dispute_states.push(DisputeState::Normal);
        }
        let mut deposit_index: HashMap<TxId, usize> = HashMap::new();
        let mut i: usize = 0;
        assert(indexes(deposit_index@, past_transactions@.subrange(0, 0)));
        while i < n
            invariant
                i <= n == past_transactions@.len(),
                indexes(deposit_index@, past_transactions@.subrange(0, i as int)),
            decreases n - i,
        {
            let t = past_transactions[i];
            let ghost prefix = past_transactions@.subrange(0, i as int);
            assert(past_transactions@.subrange(0, i + 1 as int) =~= prefix.push(t));
            if t.kind == TransactionType::Deposit && !deposit_index.contains_key(&t.tx) {
                deposit_index.insert(t.tx, i);
            }
            assert forall|id: TxId| #[trigger] find_deposit(prefix.push(t), id) == match find_deposit(prefix, id) {
                Some(j) => Some(j),
                None => if is_deposit_of(t, id) {
                    Some(i as int)
                } else {
                    None
                },
            } by {
                lemma_find_deposit_push(prefix, t, id, 0);
            }
            i = i + 1;
        }
        assert(past_transactions@.subrange(0, n as int) =~= past_transactions@);
        let r = BasicProcessor { client_accounts, past_transactions, dispute_states, deposit_index };
        assert(r@.states =~= Seq::new(n as nat, |i: int| DisputeState::Normal));
        r
    }

    /// The index of the first recorded deposit with id `id`.
    fn find_deposit_index(&self, id: TxId) -> (r: Option<usize>)
        requires
            self.wf(),
        ensures
            r matches Some(i) ==> i < self@.history.len(),
            find_deposit(self@.history, id) == match r {
                Some(i) => Some(i as int),
                None => None::<int>,
            },
    {
        proof {
            lemma_find_deposit_from(self@.history, id, 0);
        }
        match self.deposit_index.get(&id) {
            Some(i) => Some(*i),
            None => None,
        }
    }

    fn process_deposit(&self, t: &Transaction) -> (r: Result<ClientAccount, ErrorKind>)
        ensures
            r == self@.deposit_outcome(*t),
    {
        let acc = match self.client_accounts.get(&t.client) {
            Some(existing) => {
                if existing.locked {
                    return Err(ErrorKind::AccountFrozen);
                }
                *existing
            },
            None => ClientAccount::new(),
        };
        match t.amount {
            None => Err(ErrorKind::AmountMissing),
            Some(a) => {
                if a <= 0 {
                    Err(ErrorKind::NonPositiveAmount)
                } else {
                    adjust(acc, a, 0, a, false)
                }
            },
        }
    }

    fn process_withdrawal(&self, t: &Transaction) -> (r: Result<ClientAccount, ErrorKind>)
        ensures
            r == self@.withdrawal_outcome(*t),
    {
        let acc = match self.client_accounts.get(&t.client) {
            Some(existing) => *existing,
            None => {
                return Err(ErrorKind::AccountNotFound);
            },
        };
        if acc.locked {
            return Err(ErrorKind::AccountFrozen);
        }
        match t.amount {
            None => Err(ErrorKind::AmountMissing),
            Some(a) => {
                if a <= 0 {
                    Err(ErrorKind::NonPositiveAmount)
                } else if a > acc.available {
                    Err(ErrorKind::InsufficientFunds)
                } else {
                    adjust(acc, -a, 0, -a, false)
                }
            },
        }
    }

    /// The index of the deposit that `t` refers to and the account it acts
    /// on, where the deposit is in state `expected`.
    fn check_reference(&self, t: &Transaction, expected: DisputeState) -> (r: Result<
        (usize, ClientAccount),
        ErrorKind,
    >)
        requires
            self.wf(),
        ensures
            match r {
                Ok((i, acc)) => {
                    &&& self@.reference_outcome(*t, expected) == Ok::<int, ErrorKind>(i as int)
                    &&& acc == self@.accounts[t.client]
                    &&& i < self@.history.len()
                },
                Err(e) => self@.reference_outcome(*t, expected) == Err::<int, ErrorKind>(e),
            },
    {
        let existing = self.client_accounts.get(&t.client);
        if let Some(acc) = existing {
            if acc.locked {
                return Err(ErrorKind::AccountFrozen);
            }
        }
        let i = match self.find_deposit_index(t.tx) {
            Some(i) => i,
            None => {
                return Err(ErrorKind::ReferencedTransactionNotFound);
            },
        };
        let acc = match existing {
            Some(acc) => *acc,
            None => {
                return Err(ErrorKind::AccountNotFound);
            },
        };
        if self.past_transactions[i].client != t.client {
            return Err(ErrorKind::ClientMismatch);
        }
        if self.dispute_states[i] != expected {
            return Err(ErrorKind::InvalidDisputeState);
        }
        Ok((i, acc))
    }

    /// The amount of the recorded deposit or withdrawal at `i`.
    fn recorded_amount(&self, i: usize) -> (a: i64)
        requires
            self.wf(),
            i < self@.history.len(),
        ensures
            a as int == amount_of(self@.history[i as int]),
            a > 0,
    {
        match self.past_transactions[i].amount {
            Some(a) => a,
            None => 0,
        }
    }

    fn process_dispute(&self, t: &Transaction) -> (r: Result<(usize, ClientAccount), ErrorKind>)
        requires
            self.wf(),
            t.kind == TransactionType::Dispute,
        ensures
            self.referring_result(*t, r),
    {
        match self.check_reference(t, DisputeState::Normal) {
            Err(e) => Err(e),
            Ok((i, acc)) => {
                let a = self.recorded_amount(i);
                match adjust(acc, -a, a, 0, false) {
                    Ok(next) => Ok((i, next)),
                    Err(e) => Err(e),
                }
            },
        }
    }

    fn process_resolve(&self, t: &Transaction) -> (r: Result<(usize, ClientAccount), ErrorKind>)
        requires
            self.wf(),
            t.kind == TransactionType::Resolve,
        ensures
            self.referring_result(*t, r),
    {
        match self.check_reference(t, DisputeState::Disputed) {
            Err(e) => Err(e),
            Ok((i, acc)) => {
                let a = self.recorded_amount(i);
                match adjust(acc, a, -a, 0, false) {
                    Ok(next) => Ok((i, next)),
                    Err(e) => Err(e),
                }
            },
        }
    }

    fn process_chargeback(&self, t: &Transaction) -> (r: Result<(usize, ClientAccount), ErrorKind>)
        requires
            self.wf(),
            t.kind == TransactionType::Chargeback,
        ensures
            self.referring_result(*t, r),
    {
        match self.check_reference(t, DisputeState::Disputed) {
            Err(e) => Err(e),
            Ok((i, acc)) => {
                let a = self.recorded_amount(i);
                match adjust(acc, 0, -a, -a, true) {
                    Ok(next) => Ok((i, next)),
                    Err(e) => Err(e),
                }
            },
        }
    }

    /// `r` is the outcome of the referring transaction `t`, with the index of
    /// the deposit it refers to.
    pub open spec fn referring_result(
        &self,
        t: Transaction,
        r: Result<(usize, ClientAccount), ErrorKind>,
    ) -> bool {
        match r {
            Ok((i, acc)) => {
                &&& self@.outcome(t) == Ok::<ClientAccount, ErrorKind>(acc)
                &&& find_deposit(self@.history, t.tx) == Some(i as int)
                &&& i < self@.history.len()
            },
            Err(e) => self@.outcome(t) == Err::<ClientAccount, ErrorKind>(e),
        }
    }

    /// Validates `t` against the current state: the client's account after
    /// `t` and, for a referring transaction, the index of its deposit.
    fn validate(&self, t: &Transaction) -> (r: Result<(usize, ClientAccount), ErrorKind>)
        requires
            self.wf(),
        ensures
            match r {
                Ok((i, acc)) => {
                    &&& self@.outcome(*t) == Ok::<ClientAccount, ErrorKind>(acc)
                    &&& (t.kind != TransactionType::Deposit && t.kind
                        != TransactionType::Withdrawal) ==> find_deposit(self@.history, t.tx)
                        == Some(i as int) && i < self@.history.len()
                },
                Err(e) => self@.outcome(*t) == Err::<ClientAccount, ErrorKind>(e),
            },
    {
        match t.kind {
            TransactionType::Deposit => match self.process_deposit(t) {
                Ok(acc) => Ok((0, acc)),
                Err(e) => Err(e),
            },
            TransactionType::Withdrawal => match self.process_withdrawal(t) {
                Ok(acc) => Ok((0, acc)),
                Err(e) => Err(e),
            },
            TransactionType::Dispute => self.process_dispute(t),
            TransactionType::Resolve => self.process_resolve(t),
            TransactionType::Chargeback => self.process_chargeback(t),
        }
    }

    /// The client's account as it would be after `t`, or why `t` would be
    /// rejected; nothing changes.
    pub fn check_transaction(&self, t: &Transaction) -> (r: Result<ClientAccount, ErrorKind>)
        requires
            self.wf(),
        ensures
            r == self@.outcome(*t),
    {
        match self.validate(t) {
            Ok((_, acc)) => Ok(acc),
            Err(e) => Err(e),
        }
    }

    /// Whether `t` would be accepted in the current state.
    pub fn is_valid_transaction(&self, t: &Transaction) -> (r: bool)
        requires
            self.wf(),
        ensures
            r == self@.outcome(*t) is Ok,
    {
        self.validate(t).is_ok()
    }

    /// Validates `t` and, where it is accepted, applies it: the client's
    /// account is replaced by the one returned, a deposit or withdrawal is
    /// recorded as undisputed, and a dispute, resolve or chargeback moves its
    /// deposit along the dispute lifecycle. A rejected `t` changes nothing.
    pub fn process_transaction(&mut self, t: Transaction) -> (r: Result<ClientAccount, ErrorKind>)
        requires
            old(self).wf(),
        ensures
            r == old(self)@.outcome(t),
            final(self)@ == old(self)@.apply(t),
            final(self).wf(),
            r is Err ==> final(self)@ == old(self)@,
            r matches Ok(acc) ==> final(self)@.accounts[t.client] == acc && acc.wf(),
    {
        proof {
            lemma_apply_preserves_wf(self@, t);
        }
        match self.validate(&t) {
            Err(e) => Err(e),
            Ok((i, acc)) => {
                self.client_accounts.insert(t.client, acc);
                match t.kind {
                    TransactionType::Deposit | TransactionType::Withdrawal => {
                        let n = self.past_transactions.len();
                        if t.kind == TransactionType::Deposit && !self.deposit_index.contains_key(
                            &t.tx,
                        ) {
                            self.deposit_index.insert(t.tx, n);
                        }
                        let ghost h = self@.history;
                        self.past_transactions.push(t);
                        self.dispute_states.push(DisputeState::Normal);
                        assert forall|id: TxId| #[trigger] find_deposit(h.push(t), id) == match find_deposit(h, id) {
                            Some(j) => Some(j),
                            None => if is_deposit_of(t, id) {
                                Some(n as int)
                            } else {
                                None
                            },
                        } by {
                            lemma_find_deposit_push(h, t, id, 0);
                        }
                    },
                    TransactionType::Dispute => {
                        self.dispute_states.set(i, DisputeState::Disputed);
                    },
                    TransactionType::Resolve => {
                        self.dispute_states.set(i, DisputeState::Resolved);
                    },
                    TransactionType::Chargeback => {
                        self.dispute_states.set(i, DisputeState::ChargedBack);
                    },
                }
                Ok(acc)
            },
        }
    }
}

/// Every account balanced: after any transaction, accepted or rejected,
/// `total == available + held` holds for every account, and the ledger stays
/// well formed.
pub proof fn lemma_apply_preserves_wf(m: LedgerModel, t: Transaction)
    requires
        m.wf(),
    ensures
        m.apply(t).wf(),
        m.outcome(t) matches Ok(acc) ==> acc.wf(),
{
    lemma_find_deposit_from(m.history, t.tx, 0);
    if let Ok(acc) = m.outcome(t) {
        let n = m.apply(t);
        assert forall|c: ClientId| #[trigger] n.accounts.contains_key(c) implies n.accounts[c].wf() by {
            if c != t.client {
                assert(m.accounts.contains_key(c));
            }
        }
        if t.kind == TransactionType::Deposit || t.kind == TransactionType::Withdrawal {
            assert forall|i: int| 0 <= i < n.history.len() implies is_record(
                #[trigger] n.history[i],
            ) by {
                if i < m.history.len() {
                    assert(n.history[i] == m.history[i]);
                }
            }
        }
    }
}

} // verus!
