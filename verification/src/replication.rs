//! What a central server does with a replicated state update: the
//! operation code says whether the data is a snapshot of every account, a
//! single transaction, a snapshot of every transaction, or one account.

use crate::election::messages::StateUpdateData;
use crate::election::ring_election::FULL_SYNC_OPERATION;
use vstd::prelude::*;

verus! {

/// Operation code of a single transaction recorded by the leader.
pub const TRANSACTION_OPERATION: u8 = 254;

/// Operation code of a snapshot of every account's transactions.
pub const TRANSACTIONS_SYNC_OPERATION: u8 = 253;

/// How an update is applied.
#[derive(Debug, PartialEq, Eq)]
pub enum UpdateKind {
    /// Replace or add every account of the snapshot (JSON array of accounts).
    AccountsSnapshot,
    /// Append one transaction (JSON) to the account's transactions.
    Transaction,
    /// Replace the transactions of every account of the snapshot (JSON map).
    TransactionsSnapshot,
    /// Replace or add one account (JSON) under the update's account id.
    Account,
    /// A snapshot or transaction without data: nothing to apply.
    EmptySnapshot,
    /// An account update without data: nothing to apply, worth a warning.
    EmptyAccount,
}

/// The kind of an update with operation code `op` and `len` bytes of data.
pub open spec fn update_kind(op: u8, len: nat) -> UpdateKind {
    if op == FULL_SYNC_OPERATION || op == TRANSACTION_OPERATION || op
        == TRANSACTIONS_SYNC_OPERATION {
        if len == 0 {
            UpdateKind::EmptySnapshot
        } else if op == FULL_SYNC_OPERATION {
            UpdateKind::AccountsSnapshot
        } else if op == TRANSACTION_OPERATION {
            UpdateKind::Transaction
        } else {
            UpdateKind::TransactionsSnapshot
        }
    } else if len == 0 {
        UpdateKind::EmptyAccount
    } else {
        UpdateKind::Account
    }
}

/// Classifies a replicated update.
pub fn classify_update(update: &StateUpdateData) -> (r: UpdateKind)
    ensures
        r == update_kind(update.operation_type, update.data@.len()),
{
    let op = update.operation_type;
    let empty = update.data.len() == 0;
    if op == FULL_SYNC_OPERATION || op == TRANSACTION_OPERATION || op
        == TRANSACTIONS_SYNC_OPERATION {
        if empty {
            UpdateKind::EmptySnapshot
        } else if op == FULL_SYNC_OPERATION {
            UpdateKind::AccountsSnapshot
        } else if op == TRANSACTION_OPERATION {
            UpdateKind::Transaction
        } else {
            UpdateKind::TransactionsSnapshot
        }
    } else if empty {
        UpdateKind::EmptyAccount
    } else {
        UpdateKind::Account
    }
}

/// Every update whose operation code is none of the snapshot and
/// transaction codes (253, 254, 255) and that carries data is applied as
/// one account under the update's account id: an account registration
/// (code 0), a card, a limit or a name change all reach the followers.
pub proof fn lemma_account_updates_are_applied(op: u8, len: nat)
    requires
        op != 253,
        op != 254,
        op != 255,
        len > 0,
    ensures
        update_kind(op, len) == UpdateKind::Account,
{
}

/// An update with data under code 255 is a snapshot of every account, under
/// 254 one transaction, under 253 a snapshot of every account's
/// transactions; without data, any of these applies nothing.
pub proof fn lemma_snapshot_codes(len: nat)
    ensures
        len > 0 ==> update_kind(255, len) == UpdateKind::AccountsSnapshot,
        len > 0 ==> update_kind(254, len) == UpdateKind::Transaction,
        len > 0 ==> update_kind(253, len) == UpdateKind::TransactionsSnapshot,
        len == 0 ==> update_kind(255, len) == UpdateKind::EmptySnapshot
            && update_kind(254, len) == UpdateKind::EmptySnapshot
            && update_kind(253, len) == UpdateKind::EmptySnapshot,
{
}

} // verus!
