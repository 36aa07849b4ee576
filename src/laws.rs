use vstd::prelude::*;

use crate::processor::{find_deposit, lemma_find_deposit_from, DisputeState, ErrorKind, LedgerModel};
use crate::transaction::{ClientId, Transaction, TransactionType};

verus! {

/// A rejected transaction changes nothing: no balance, no account, no record
/// and no dispute state.
pub proof fn lemma_rejection_changes_nothing(m: LedgerModel, t: Transaction)
    requires
        m.outcome(t) is Err,
    ensures
        m.apply(t) == m,
{
}

/// A locked account stays locked, whatever transaction comes next.
pub proof fn lemma_lock_is_permanent(m: LedgerModel, t: Transaction, c: ClientId)
    requires
        m.is_locked(c),
    ensures
        m.apply(t).is_locked(c),
{
}

/// A locked account accepts nothing: every transaction of its client is
/// rejected with `AccountFrozen`, and so leaves the ledger as it was.
pub proof fn lemma_frozen_rejects_all(m: LedgerModel, t: Transaction)
    requires
        m.is_locked(t.client),
    ensures
        m.outcome(t) == Err::<crate::transaction::ClientAccount, ErrorKind>(ErrorKind::AccountFrozen),
        m.apply(t) == m,
{
}

pub open spec fn is_referring(kind: TransactionType) -> bool {
    kind == TransactionType::Dispute || kind == TransactionType::Resolve || kind
        == TransactionType::Chargeback
}

/// Disputing the same deposit twice in a row: the second dispute is rejected
/// with `InvalidDisputeState`.
pub proof fn lemma_dispute_twice_rejected(m: LedgerModel, t: Transaction)
    requires
        m.wf(),
        t.kind == TransactionType::Dispute,
        m.outcome(t) is Ok,
    ensures
        m.apply(t).outcome(t) == Err::<crate::transaction::ClientAccount, ErrorKind>(
            ErrorKind::InvalidDisputeState,
        ),
{
    lemma_find_deposit_from(m.history, t.tx, 0);
}

/// A resolve or chargeback is accepted only on a deposit that is disputed at
/// that moment: one never disputed, or already resolved or charged back, is
/// rejected.
pub proof fn lemma_settle_needs_dispute(m: LedgerModel, t: Transaction)
    requires
        m.wf(),
        t.kind == TransactionType::Resolve || t.kind == TransactionType::Chargeback,
        !(find_deposit(m.history, t.tx) matches Some(i) && m.states[i] == DisputeState::Disputed),
    ensures
        m.outcome(t) is Err,
{
}

/// After a deposit is resolved or charged back, no dispute, resolve or
/// chargeback of it is accepted next.
pub proof fn lemma_settled_is_final(m: LedgerModel, t: Transaction, u: Transaction)
    requires
        m.wf(),
        t.kind == TransactionType::Resolve || t.kind == TransactionType::Chargeback,
        m.outcome(t) is Ok,
        is_referring(u.kind),
        u.tx == t.tx,
    ensures
        m.apply(t).outcome(u) is Err,
{
    lemma_find_deposit_from(m.history, t.tx, 0);
}

/// A dispute followed at once by a resolve of the same deposit is accepted,
/// and gives the client back the available and held funds it had before.
pub proof fn lemma_dispute_resolve_round_trip(m: LedgerModel, client: ClientId, tx: u32)
    requires
        m.wf(),
        m.outcome(
            Transaction { kind: TransactionType::Dispute, client, tx, amount: None },
        ) is Ok,
    ensures
        ({
            let d = Transaction { kind: TransactionType::Dispute, client, tx, amount: None };
            let r = Transaction { kind: TransactionType::Resolve, client, tx, amount: None };
            let after = m.apply(d).apply(r);
            &&& m.apply(d).outcome(r) is Ok
            &&& after.accounts[client].available == m.accounts[client].available
            &&& after.accounts[client].held == m.accounts[client].held
            &&& after.accounts[client].total == m.accounts[client].total
        }),
{
    lemma_find_deposit_from(m.history, tx, 0);
}

} // verus!
