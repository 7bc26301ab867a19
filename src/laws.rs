//! Properties of the ledger's transition function that hold for every input.
use vstd::prelude::*;
use crate::entities::{kind_of, Transaction, TransactionKind};
use crate::service::{
    amount_of, apply, lemma_chargeback_well_formed, lemma_deposit_well_formed,
    lemma_dispute_well_formed, lemma_resolve_well_formed, lemma_withdraw_well_formed, run, Ledger,
    Outcome, SkipReason,
};

verus! {

/// After any sequence of deposits alone, starting from an empty ledger, every
/// account has `available == total` and nothing held.
pub proof fn lemma_deposits_only(ts: Seq<Transaction>)
    requires
        forall|i: int| 0 <= i < ts.len() ==> kind_of((#[trigger] ts[i]).kind@) == TransactionKind::Deposit,
    ensures
        forall|c: u16|
            run(Ledger::empty(), ts).accounts.contains_key(c) ==> {
                let a = #[trigger] run(Ledger::empty(), ts).accounts[c];
                a.available_amount == a.total_amount && a.held_amount == 0
            },
    decreases ts.len(),
{
    if ts.len() > 0 {
        let pre = ts.drop_last();
        assert forall|i: int| 0 <= i < pre.len() implies kind_of((#[trigger] pre[i]).kind@)
            == TransactionKind::Deposit by {
            assert(pre[i] == ts[i]);
        }
        lemma_deposits_only(pre);
        let t = ts.last();
        assert(kind_of(t.kind@) == TransactionKind::Deposit);
        let s = run(Ledger::empty(), pre);
        let n = run(Ledger::empty(), ts);
        assert(n == s.deposit(t.tx, t.client, amount_of(t)).0);
        assert forall|c: u16| n.accounts.contains_key(c) implies {
            let a = #[trigger] n.accounts[c];
            a.available_amount == a.total_amount && a.held_amount == 0
        } by {
            if c != t.client {
                assert(s.accounts[c] == n.accounts[c]);
            }
        }
    }
}

/// Applying any record to a well-formed ledger gives a well-formed ledger; in
/// particular every account keeps `total == available + held` exactly.
pub proof fn lemma_apply_well_formed(s: Ledger, t: Transaction)
    requires
        s.well_formed(),
    ensures
        apply(s, t).0.well_formed(),
        apply(s, t).0.balanced(),
{
    match kind_of(t.kind@) {
        TransactionKind::Deposit => lemma_deposit_well_formed(s, t.tx, t.client, amount_of(t)),
        TransactionKind::Withdrawal => lemma_withdraw_well_formed(s, t.tx, t.client, amount_of(t)),
        TransactionKind::Dispute => lemma_dispute_well_formed(s, t.tx, t.client),
        TransactionKind::Resolve => lemma_resolve_well_formed(s, t.tx, t.client),
        TransactionKind::Chargeback => lemma_chargeback_well_formed(s, t.tx, t.client),
        TransactionKind::Unknown => {},
    }
}

/// After every prefix of a record stream, starting from an empty ledger, every
/// account has `total == available + held`.
pub proof fn lemma_run_balanced(ts: Seq<Transaction>)
    ensures
        run(Ledger::empty(), ts).well_formed(),
        run(Ledger::empty(), ts).balanced(),
    decreases ts.len(),
{
    if ts.len() > 0 {
        lemma_run_balanced(ts.drop_last());
        lemma_apply_well_formed(run(Ledger::empty(), ts.drop_last()), ts.last());
    }
}

/// Disputing the same transaction twice has the same effect as disputing it once.
pub proof fn lemma_dispute_idempotent(s: Ledger, t: Transaction)
    requires
        kind_of(t.kind@) == TransactionKind::Dispute,
    ensures
        apply(apply(s, t).0, t).0 == apply(s, t).0,
{
}

/// Resolve and chargeback of a transaction that is unknown, or not under
/// dispute, leave the ledger unchanged.
pub proof fn lemma_settle_needs_dispute(s: Ledger, t: Transaction)
    requires
        kind_of(t.kind@) == TransactionKind::Resolve || kind_of(t.kind@)
            == TransactionKind::Chargeback,
        !s.transactions.contains_key(t.tx) || !s.transactions[t.tx].disputed,
    ensures
        apply(s, t).0 == s,
        apply(s, t).1 is Skipped,
{
}

/// A locked account refuses every deposit and withdrawal: the ledger is unchanged.
pub proof fn lemma_locked_refuses(s: Ledger, t: Transaction)
    requires
        kind_of(t.kind@) == TransactionKind::Deposit || kind_of(t.kind@)
            == TransactionKind::Withdrawal,
        s.accounts.contains_key(t.client),
        s.accounts[t.client].locked,
    ensures
        apply(s, t) == (s, Outcome::Skipped(SkipReason::AccountLocked)),
{
}

} // verus!
