//! Laws of the ledger, stated and proved over its abstract state.

use vstd::prelude::*;

use crate::ledger::{LedgerError, LedgerOp, LedgerView};

verus! {

impl LedgerOp {
    /// Whether this call is made by `k`.
    pub open spec fn has_caller(self, k: Seq<char>) -> bool {
        match self {
            LedgerOp::Deposit { caller, .. } => caller == k,
            LedgerOp::Gift { caller, .. } => caller == k,
        }
    }

    /// Whether this call sends a gift to `k`.
    pub open spec fn has_recipient(self, k: Seq<char>) -> bool {
        match self {
            LedgerOp::Deposit { .. } => false,
            LedgerOp::Gift { recipient, .. } => recipient == k,
        }
    }

    /// Whether the amounts of this call fit in a `u128`, as those of every
    /// call made on a [`crate::ledger::Support`] do.
    pub open spec fn fits(self) -> bool {
        match self {
            LedgerOp::Deposit { attached, .. } => attached <= u128::MAX,
            LedgerOp::Gift { amount, attached, .. } => amount <= u128::MAX && attached <= u128::MAX,
        }
    }
}

/// A gift paid from the pool, after a deposit: the caller's pooled balance
/// falls by exactly the amount and the recipient's gift balance rises by
/// exactly the amount. Stated where the deposit and the new gift balance fit
/// in a `u128`.
pub proof fn lemma_pool_gift_moves_amount(
    s: LedgerView,
    caller: Seq<char>,
    deposited: nat,
    recipient: Seq<char>,
    amount: nat,
    attached: nat,
)
    requires
        s.deposit_of(caller) + deposited <= u128::MAX,
        amount <= s.after_deposit(caller, deposited).deposit_of(caller),
        s.gift_of(recipient) + amount <= u128::MAX,
    ensures
        ({
            let s1 = s.after_deposit(caller, deposited);
            let s2 = s1.after_gift(caller, recipient, amount, attached);
            &&& s1.deposit_of(caller) == s.deposit_of(caller) + deposited
            &&& s1.gift_outcome(caller, recipient, amount, attached) is Ok
            &&& s2.deposit_of(caller) == s1.deposit_of(caller) - amount
            &&& s2.gift_of(recipient) == s1.gift_of(recipient) + amount
        }),
{
}

/// A gift larger than both the pooled balance and the attached value is
/// refused for insufficient funds, and leaves both mappings unchanged.
pub proof fn lemma_insufficient_funds_changes_nothing(
    s: LedgerView,
    caller: Seq<char>,
    recipient: Seq<char>,
    amount: nat,
    attached: nat,
)
    requires
        amount > s.deposit_of(caller),
        amount > attached,
    ensures
        s.gift_outcome(caller, recipient, amount, attached) == Err::<(), LedgerError>(
            LedgerError::InsufficientFunds,
        ),
        s.after_gift(caller, recipient, amount, attached) == s,
{
}

/// A gift larger than the pooled balance but covered by the attached value
/// succeeds, leaves the caller a pooled balance of the attached value less
/// the amount, and credits no gift balance.
pub proof fn lemma_shortfall_covered_by_attached(
    s: LedgerView,
    caller: Seq<char>,
    recipient: Seq<char>,
    amount: nat,
    attached: nat,
)
    requires
        amount > s.deposit_of(caller),
        amount <= attached,
    ensures
        s.gift_outcome(caller, recipient, amount, attached) is Ok,
        s.after_gift(caller, recipient, amount, attached).deposit_of(caller) == attached - amount,
        s.after_gift(caller, recipient, amount, attached).gifts == s.gifts,
        s.after_gift(caller, recipient, amount, attached).gift_of(recipient) == s.gift_of(recipient),
{
}

proof fn lemma_untouched_keeps_balances(s: LedgerView, ops: Seq<LedgerOp>, k: Seq<char>)
    ensures
        (forall|i: int| 0 <= i < ops.len() ==> !(#[trigger] ops[i]).has_caller(k))
            ==> s.run(ops).deposit_of(k) == s.deposit_of(k),
        (forall|i: int| 0 <= i < ops.len() ==> !(#[trigger] ops[i]).has_recipient(k))
            ==> s.run(ops).gift_of(k) == s.gift_of(k),
    decreases ops.len(),
{
    if ops.len() > 0 {
        let rest = ops.drop_first();
        lemma_untouched_keeps_balances(s.apply(ops[0]), rest, k);
        if forall|i: int| 0 <= i < ops.len() ==> !(#[trigger] ops[i]).has_caller(k) {
            assert(!ops[0].has_caller(k));
            assert forall|i: int| 0 <= i < rest.len() implies !(#[trigger] rest[i]).has_caller(k) by {
                assert(rest[i] == ops[i + 1]);
            }
        }
        if forall|i: int| 0 <= i < ops.len() ==> !(#[trigger] ops[i]).has_recipient(k) {
            assert(!ops[0].has_recipient(k));
            assert forall|i: int| 0 <= i < rest.len() implies !(#[trigger] rest[i]).has_recipient(k) by {
                assert(rest[i] == ops[i + 1]);
            }
        }
    }
}

/// From the empty ledger, an identity that never made a call has a pooled
/// balance of zero, and one that never received a gift has a gift balance of
/// zero, whatever calls others made.
pub proof fn lemma_untouched_identity_reads_zero(ops: Seq<LedgerOp>, k: Seq<char>)
    ensures
        (forall|i: int| 0 <= i < ops.len() ==> !(#[trigger] ops[i]).has_caller(k))
            ==> LedgerView::empty().run(ops).deposit_of(k) == 0,
        (forall|i: int| 0 <= i < ops.len() ==> !(#[trigger] ops[i]).has_recipient(k))
            ==> LedgerView::empty().run(ops).gift_of(k) == 0,
{
    lemma_untouched_keeps_balances(LedgerView::empty(), ops, k);
}

proof fn lemma_run_keeps_range(s: LedgerView, ops: Seq<LedgerOp>)
    requires
        s.in_range(),
        forall|i: int| 0 <= i < ops.len() ==> (#[trigger] ops[i]).fits(),
    ensures
        s.run(ops).in_range(),
    decreases ops.len(),
{
    if ops.len() > 0 {
        let rest = ops.drop_first();
        assert(ops[0].fits());
        assert forall|i: int| 0 <= i < rest.len() implies (#[trigger] rest[i]).fits() by {
            assert(rest[i] == ops[i + 1]);
        }
        lemma_run_keeps_range(s.apply(ops[0]), rest);
    }
}

/// In every state reached from the empty ledger, each stored balance is at
/// least zero and fits in a `u128`.
pub proof fn lemma_reachable_balances_in_range(ops: Seq<LedgerOp>)
    requires
        forall|i: int| 0 <= i < ops.len() ==> (#[trigger] ops[i]).fits(),
    ensures
        LedgerView::empty().run(ops).in_range(),
{
    lemma_run_keeps_range(LedgerView::empty(), ops);
}

} // verus!
