//! Laws of the batch processor, stated over the same spec functions its
//! contracts use.

use vstd::prelude::*;
use crate::identity::Identity;
use crate::ledger::RecipientData;
use crate::ledger::ledger_amount;
use crate::state::AirdropState;
use crate::batch::batch_added;
use crate::batch::sum_amounts;

verus! {

/// Batches are not deduplicated. Resubmitting a batch that succeeded, and
/// succeeding again, doubles its whole effect: the distributed total grows
/// by twice the batch sum, the batch count by two, and every recipient's
/// cumulative amount by twice what one batch adds to it. The two requires
/// are what `airdrop` ensures of each of the two successful calls.
pub proof fn lemma_resubmission_doubles(
    s0: AirdropState,
    s1: AirdropState,
    s2: AirdropState,
    l0: Seq<RecipientData>,
    l1: Seq<RecipientData>,
    l2: Seq<RecipientData>,
    recipients: Seq<Identity>,
    amounts: Seq<u64>,
)
    requires
        s1.total_airdropped == s0.total_airdropped + sum_amounts(amounts),
        s1.total_airdrops == s0.total_airdrops + 1,
        forall|who: Identity|
            ledger_amount(l1, who) == ledger_amount(l0, who) + batch_added(
                recipients,
                amounts,
                who,
            ),
        s2.total_airdropped == s1.total_airdropped + sum_amounts(amounts),
        s2.total_airdrops == s1.total_airdrops + 1,
        forall|who: Identity|
            ledger_amount(l2, who) == ledger_amount(l1, who) + batch_added(
                recipients,
                amounts,
                who,
            ),
    ensures
        s2.total_airdropped == s0.total_airdropped + 2 * sum_amounts(amounts),
        s2.total_airdrops == s0.total_airdrops + 2,
        forall|who: Identity|
            ledger_amount(l2, who) == ledger_amount(l0, who) + 2 * batch_added(
                recipients,
                amounts,
                who,
            ),
{
    assert forall|who: Identity|
        ledger_amount(l2, who) == ledger_amount(l0, who) + 2 * batch_added(
            recipients,
            amounts,
            who,
        ) by {
        assert(ledger_amount(l1, who) == ledger_amount(l0, who) + batch_added(
            recipients,
            amounts,
            who,
        ));
    }
}

/// What a one-pair batch adds: its amount to its recipient, nothing to
/// anyone else.
pub proof fn lemma_single_pair_batch(target: Identity, amount: u64, who: Identity)
    ensures
        batch_added(seq![target], seq![amount], who) == if who == target {
            amount as int
        } else {
            0
        },
{
    assert(seq![target].drop_last() =~= Seq::<Identity>::empty());
    assert(seq![amount].drop_last() =~= Seq::<u64>::empty());
    assert(seq![target].last() == target);
    assert(seq![amount].last() == amount);
    assert(batch_added(Seq::<Identity>::empty(), Seq::<u64>::empty(), who) == 0);
}

/// Per-recipient accumulation: two batches that each send `amount` to
/// `target` leave `target` with `2 * amount` more than before — exactly
/// `2 * amount` when `target` had no record — and leave every other
/// recipient's amount untouched. The two requires are what `airdrop`
/// ensures of each of the two successful one-pair calls.
pub proof fn lemma_per_recipient_accumulation(
    l0: Seq<RecipientData>,
    l1: Seq<RecipientData>,
    l2: Seq<RecipientData>,
    target: Identity,
    amount: u64,
)
    requires
        forall|who: Identity|
            ledger_amount(l1, who) == ledger_amount(l0, who) + batch_added(
                seq![target],
                seq![amount],
                who,
            ),
        forall|who: Identity|
            ledger_amount(l2, who) == ledger_amount(l1, who) + batch_added(
                seq![target],
                seq![amount],
                who,
            ),
    ensures
        ledger_amount(l2, target) == ledger_amount(l0, target) + 2 * amount,
        ledger_amount(l0, target) == 0 ==> ledger_amount(l2, target) == 2 * amount,
        forall|who: Identity| who != target ==> ledger_amount(l2, who) == ledger_amount(l0, who),
{
    assert forall|who: Identity|
        ledger_amount(l2, who) == ledger_amount(l0, who) + 2 * batch_added(
            seq![target],
            seq![amount],
            who,
        ) by {
        assert(ledger_amount(l1, who) == ledger_amount(l0, who) + batch_added(
            seq![target],
            seq![amount],
            who,
        ));
    }
    assert forall|who: Identity| who != target implies ledger_amount(l2, who) == ledger_amount(
        l0,
        who,
    ) by {
        lemma_single_pair_batch(target, amount, who);
    }
    lemma_single_pair_batch(target, amount, target);
}

} // verus!
