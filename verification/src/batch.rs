//! The batch processor.
//!
//! `airdrop` takes one batch of (recipient, amount) pairs and either
//! rejects it with the first applicable error — wrong shape, wrong caller,
//! an amount that does not fit, or not enough balance — or applies it
//! whole: every recipient's cumulative record grows by its amounts, the
//! aggregate counters grow by the batch total and by one batch, and an
//! audit event describes what happened. A rejected batch changes nothing.

use vstd::prelude::*;
use crate::identity::Identity;
use crate::ledger::RecipientData;
use crate::ledger::RecipientLedger;
use crate::ledger::ledger_amount;
use crate::ledger::ledger_has;
use crate::ledger::lemma_ledger_amount_bounds;
use crate::state::AirdropState;

verus! {

/// Why a batch was rejected.
#[derive(Clone, Copy, Debug, PartialEq, Eq, Structural)]
pub enum AirdropError {
    /// The recipient list and the amount list differ in length.
    ArrayLengthMismatch,
    /// The batch names no recipient at all.
    NoRecipients,
    /// The caller is not the owner of the distribution state.
    Unauthorized,
    /// The batch total, an aggregate counter, or a recipient's cumulative
    /// amount would not fit in its 64-bit field.
    AmountOverflow,
    /// The caller's balance does not cover the batch total.
    InsufficientFunds,
}

/// What a successful batch reports back to its submitter.
#[derive(Clone, Copy, Debug, PartialEq, Eq, Structural)]
pub struct BatchReceipt {
    pub count: u32,
    pub total_amount: u64,
}

/// The audit notification of one successful batch, for the host to emit.
/// It is not kept anywhere: fire and forget.
#[derive(Clone, Copy, Debug, PartialEq, Eq, Structural)]
pub struct AirdropBatchEvent {
    pub total_recipients: u32,
    pub total_amount: u64,
    pub timestamp: i64,
}

/// The sum of all amounts in a batch, as an unbounded integer.
pub open spec fn sum_amounts(amounts: Seq<u64>) -> int
    decreases amounts.len(),
{
    if amounts.len() == 0 {
        0
    } else {
        sum_amounts(amounts.drop_last()) + amounts.last()
    }
}

/// What a batch adds to one recipient: the sum of the amounts at the
/// positions where that recipient is named.
pub open spec fn batch_added(recipients: Seq<Identity>, amounts: Seq<u64>, who: Identity) -> int
    decreases recipients.len(),
{
    if recipients.len() == 0 {
        0
    } else {
        batch_added(recipients.drop_last(), amounts.drop_last(), who) + (
        if recipients.last() == who {
            amounts.last() as int
        } else {
            0
        })
    }
}

/// Whether the batch names `who` as a recipient, at whatever amount.
pub open spec fn batch_names(recipients: Seq<Identity>, who: Identity) -> bool
    decreases recipients.len(),
{
    recipients.len() != 0 && (recipients.last() == who || batch_names(
        recipients.drop_last(),
        who,
    ))
}

/// Naming a recipient somewhere in the batch is the same as the recipient
/// list containing it.
pub proof fn lemma_batch_names_is_contains(recipients: Seq<Identity>, who: Identity)
    ensures
        batch_names(recipients, who) <==> recipients.contains(who),
    decreases recipients.len(),
{
    if recipients.len() != 0 {
        lemma_batch_names_is_contains(recipients.drop_last(), who);
        if recipients.last() == who {
            assert(recipients[recipients.len() - 1] == who);
        }
        if recipients.drop_last().contains(who) {
            let k = choose|k: int|
                0 <= k < recipients.drop_last().len() && recipients.drop_last()[k] == who;
            assert(recipients[k] == who);
        }
        if recipients.contains(who) && recipients.last() != who {
            let k = choose|k: int| 0 <= k < recipients.len() && recipients[k] == who;
            assert(recipients.drop_last()[k] == who);
        }
    }
}

/// Taking one more pair names that pair's recipient and nobody new else.
pub proof fn lemma_batch_names_take_step(recipients: Seq<Identity>, i: int)
    requires
        0 <= i < recipients.len(),
    ensures
        forall|who: Identity|
            batch_names(recipients.take(i + 1), who) <==> (batch_names(recipients.take(i), who)
                || recipients[i] == who),
{
    assert(recipients.take(i + 1).drop_last() =~= recipients.take(i));
    assert(recipients.take(i + 1).last() == recipients[i]);
}

/// Taking one more amount adds exactly that amount to the partial sum.
pub proof fn lemma_sum_take_step(amounts: Seq<u64>, i: int)
    requires
        0 <= i < amounts.len(),
    ensures
        sum_amounts(amounts.take(i + 1)) == sum_amounts(amounts.take(i)) + amounts[i],
{
    assert(amounts.take(i + 1).drop_last() =~= amounts.take(i));
    assert(amounts.take(i + 1).last() == amounts[i]);
}

/// Partial sums of unsigned amounts only grow.
pub proof fn lemma_sum_take_le(amounts: Seq<u64>, i: int, j: int)
    requires
        0 <= i <= j <= amounts.len(),
    ensures
        sum_amounts(amounts.take(i)) <= sum_amounts(amounts.take(j)),
    decreases j - i,
{
    if i < j {
        lemma_sum_take_step(amounts, j - 1);
        lemma_sum_take_le(amounts, i, j - 1);
    }
}

/// Taking one more pair adds that pair's amount to its recipient's share
/// of the batch and nothing to anyone else's.
pub proof fn lemma_batch_added_take_step(recipients: Seq<Identity>, amounts: Seq<u64>, i: int)
    requires
        recipients.len() == amounts.len(),
        0 <= i < recipients.len(),
    ensures
        forall|who: Identity|
            batch_added(recipients.take(i + 1), amounts.take(i + 1), who) == batch_added(
                recipients.take(i),
                amounts.take(i),
                who,
            ) + (if recipients[i] == who {
                amounts[i] as int
            } else {
                0
            }),
{
    assert(recipients.take(i + 1).drop_last() =~= recipients.take(i));
    assert(amounts.take(i + 1).drop_last() =~= amounts.take(i));
    assert(recipients.take(i + 1).last() == recipients[i]);
    assert(amounts.take(i + 1).last() == amounts[i]);
}

/// A recipient's share of a longer prefix of the batch is no smaller.
pub proof fn lemma_batch_added_take_le(
    recipients: Seq<Identity>,
    amounts: Seq<u64>,
    who: Identity,
    i: int,
    j: int,
)
    requires
        recipients.len() == amounts.len(),
        0 <= i <= j <= recipients.len(),
    ensures
        batch_added(recipients.take(i), amounts.take(i), who) <= batch_added(
            recipients.take(j),
            amounts.take(j),
            who,
        ),
    decreases j - i,
{
    if i < j {
        lemma_batch_added_take_step(recipients, amounts, j - 1);
        lemma_batch_added_take_le(recipients, amounts, who, i, j - 1);
    }
}

/// The batch total, or nothing when it does not fit in a `u64`.
pub fn checked_sum(amounts: &Vec<u64>) -> (r: Option<u64>)
    ensures
        match r {
            Some(total) => total == sum_amounts(amounts@) && sum_amounts(amounts@) <= u64::MAX,
            None => sum_amounts(amounts@) > u64::MAX,
        },
{
    let n = amounts.len();
    let mut acc: u64 = 0;
    let mut i: usize = 0;
    assert(amounts@.take(0).len() == 0);
    while i < n
        invariant
            i <= n,
            n == amounts@.len(),
            acc == sum_amounts(amounts@.take(i as int)),
        decreases n - i,
    {
        proof {
            lemma_sum_take_step(amounts@, i as int);
        }
        match acc.checked_add(amounts[i]) {
            Some(v) => {
                acc = v;
            },
            None => {
                proof {
                    lemma_sum_take_le(amounts@, i as int + 1, n as int);
                    assert(amounts@.take(n as int) =~= amounts@);
                }
                return None;
            },
        }
        i = i + 1;
    }
    proof {
        assert(amounts@.take(n as int) =~= amounts@);
    }
    Some(acc)
}

/// The first reason to reject a batch, or `None` when it must be accepted.
/// The checks come in this order: the two lists must pair up and name at
/// least one recipient; the caller must be the owner; the batch total must
/// fit in a `u64`; the caller's balance must cover the total; and neither
/// the aggregate counters nor any recipient's cumulative amount may be
/// pushed past `u64::MAX`.
pub open spec fn batch_rejection(
    st: AirdropState,
    records: Seq<RecipientData>,
    caller: Identity,
    caller_balance: u64,
    recipients: Seq<Identity>,
    amounts: Seq<u64>,
) -> Option<AirdropError> {
    if recipients.len() != amounts.len() {
        Some(AirdropError::ArrayLengthMismatch)
    } else if recipients.len() == 0 {
        Some(AirdropError::NoRecipients)
    } else if caller != st.owner {
        Some(AirdropError::Unauthorized)
    } else if sum_amounts(amounts) > u64::MAX {
        Some(AirdropError::AmountOverflow)
    } else if caller_balance < sum_amounts(amounts) {
        Some(AirdropError::InsufficientFunds)
    } else if st.total_airdropped + sum_amounts(amounts) > u64::MAX || st.total_airdrops + 1
        > u64::MAX || (exists|who: Identity|
        ledger_amount(records, who) + batch_added(recipients, amounts, who) > u64::MAX) {
        Some(AirdropError::AmountOverflow)
    } else {
        None
    }
}

/// Apply one batch: move `amounts[i]` to `recipients[i]` for every `i`, in
/// input order, crediting each recipient's cumulative record, then grow
/// the aggregate counters and report a receipt and an audit event carrying
/// `timestamp`. A batch that `batch_rejection` refuses — wrong shape,
/// wrong caller, an amount that does not fit, or `caller_balance` short of
/// the batch total — yields exactly that error, and neither the state nor
/// the ledger changes. The balance moves themselves are the host's: it
/// reads `caller_balance` from its accounts, and on success performs the
/// batch's transfers within the same atomic unit of work in which it
/// commits the returned records.
#[verifier::loop_isolation(false)]
pub fn airdrop(
    state: &mut AirdropState,
    ledger: &mut RecipientLedger,
    caller: Identity,
    caller_balance: u64,
    recipients: &Vec<Identity>,
    amounts: &Vec<u64>,
    timestamp: i64,
) -> (r: Result<(BatchReceipt, AirdropBatchEvent), AirdropError>)
    requires
        old(ledger).wf(),
        recipients@.len() <= u32::MAX,
    ensures
        final(state).owner == old(state).owner,
        final(state).total_airdropped >= old(state).total_airdropped,
        final(state).total_airdrops >= old(state).total_airdrops,
        final(ledger).wf(),
        ({
            let decision = batch_rejection(
                *old(state),
                old(ledger)@,
                caller,
                caller_balance,
                recipients@,
                amounts@,
            );
            match r {
                Ok(out) => {
                    &&& decision is None
                    &&& final(state).total_airdropped == old(state).total_airdropped + sum_amounts(
                        amounts@,
                    )
                    &&& final(state).total_airdrops == old(state).total_airdrops + 1
                    &&& forall|who: Identity|
                        ledger_amount(final(ledger)@, who) == ledger_amount(old(ledger)@, who)
                            + batch_added(recipients@, amounts@, who)
                    &&& forall|who: Identity|
                        ledger_has(final(ledger)@, who) <==> (ledger_has(old(ledger)@, who)
                            || recipients@.contains(who))
                    &&& out.0.count == recipients@.len()
                    &&& out.0.total_amount == sum_amounts(amounts@)
                    &&& out.1.total_recipients == recipients@.len()
                    &&& out.1.total_amount == sum_amounts(amounts@)
                    &&& out.1.timestamp == timestamp
                },
                Err(e) => {
                    &&& decision == Some(e)
                    &&& *final(state) == *old(state)
                    &&& final(ledger)@ == old(ledger)@
                },
            }
        }),
{
    let ghost st0 = *state;
    let ghost l0 = ledger@;
    let ghost rs = recipients@;
    let ghost amts = amounts@;

    let n = recipients.len();
    if n != amounts.len() {
        return Err(AirdropError::ArrayLengthMismatch);
    }
    if n == 0 {
        return Err(AirdropError::NoRecipients);
    }
    if caller != state.owner {
        return Err(AirdropError::Unauthorized);
    }
    let total = match checked_sum(amounts) {
        Some(t) => t,
        None => {
            return Err(AirdropError::AmountOverflow);
        },
    };
    if caller_balance < total {
        return Err(AirdropError::InsufficientFunds);
    }
    let new_total_airdropped = match state.total_airdropped.checked_add(total) {
        Some(v) => v,
        None => {
            return Err(AirdropError::AmountOverflow);
        },
    };
    let new_total_airdrops = match state.total_airdrops.checked_add(1) {
        Some(v) => v,
        None => {
            return Err(AirdropError::AmountOverflow);
        },
    };

    let mut work = ledger.snapshot();
    proof {
        assert(rs.take(0).len() == 0);
        assert(amts.take(0).len() == 0);
        assert forall|who: Identity|
            ledger_amount(work@, who) == ledger_amount(l0, who) + batch_added(
                rs.take(0),
                amts.take(0),
                who,
            ) by {}
        assert forall|who: Identity| !batch_names(rs.take(0), who) by {}
    }
    let mut i: usize = 0;
    while i < n
        invariant
            i <= n,
            n == rs.len(),
            n == amts.len(),
            rs == recipients@,
            amts == amounts@,
            *state == st0,
            ledger@ == l0,
            work.wf(),
            forall|who: Identity|
                ledger_amount(work@, who) == ledger_amount(l0, who) + batch_added(
                    rs.take(i as int),
                    amts.take(i as int),
                    who,
                ),
            forall|who: Identity|
                ledger_has(work@, who) <==> (ledger_has(l0, who) || batch_names(
                    rs.take(i as int),
                    who,
                )),
        decreases n - i,
    {
        let ghost wpre = work@;
        proof {
            assert(forall|who: Identity|
                ledger_has(wpre, who) <==> (ledger_has(l0, who) || batch_names(
                    rs.take(i as int),
                    who,
                )));
        }
        let recipient = recipients[i];
        let amount = amounts[i];
        let ok = work.credit(recipient, amount);
        proof {
            lemma_batch_added_take_step(rs, amts, i as int);
        }
        if !ok {
            proof {
                lemma_batch_added_take_le(rs, amts, recipient, i as int + 1, n as int);
                assert(rs.take(n as int) =~= rs);
                assert(amts.take(n as int) =~= amts);
                assert(ledger_amount(l0, recipient) + batch_added(rs, amts, recipient)
                    > u64::MAX);
            }
            return Err(AirdropError::AmountOverflow);
        }
        proof {
            assert forall|who: Identity|
                ledger_amount(work@, who) == ledger_amount(l0, who) + batch_added(
                    rs.take(i as int + 1),
                    amts.take(i as int + 1),
                    who,
                ) by {
                assert(ledger_amount(wpre, who) == ledger_amount(l0, who) + batch_added(
                    rs.take(i as int),
                    amts.take(i as int),
                    who,
                ));
            }
            lemma_batch_names_take_step(rs, i as int);
            assert forall|who: Identity|
                (ledger_has(work@, who) <==> (ledger_has(l0, who) || batch_names(
                    rs.take(i as int + 1),
                    who,
                ))) by {
                assert(ledger_has(work@, who) <==> (ledger_has(wpre, who) || who == recipient));
            }
        }
        i = i + 1;
    }
    proof {
        assert(i == n);
        assert(rs.take(i as int) =~= rs);
        assert(amts.take(i as int) =~= amts);
        assert forall|who: Identity|
            ledger_amount(l0, who) + batch_added(rs, amts, who) <= u64::MAX by {
            lemma_ledger_amount_bounds(work@, who);
        }
        assert(forall|who: Identity|
            ledger_has(work@, who) <==> (ledger_has(l0, who) || batch_names(rs, who)));
        assert forall|who: Identity|
            (ledger_has(work@, who) <==> (ledger_has(l0, who) || rs.contains(who))) by {
            lemma_batch_names_is_contains(rs, who);
        }
    }
    *ledger = work;
    state.total_airdropped = new_total_airdropped;
    state.total_airdrops = new_total_airdrops;
    let receipt = BatchReceipt { count: n as u32, total_amount: total };
    let event = AirdropBatchEvent {
        total_recipients: n as u32,
        total_amount: total,
        timestamp,
    };
    Ok((receipt, event))
}

} // verus!
