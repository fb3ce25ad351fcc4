//! Per-recipient cumulative accounting.
//!
//! One `RecipientData` record per recipient holds how much that recipient
//! has received in total; a `RecipientLedger` holds at most one record per
//! recipient. Crediting a recipient creates its record on first contact and
//! adds to it afterwards, and is the only way the records change.

use vstd::prelude::*;
use crate::identity::Identity;

verus! {

/// The cumulative amount one recipient has received within a scope.
/// The recipient field never changes once the record exists; the amount
/// only grows.
#[derive(Clone, Copy, Debug, PartialEq, Eq, Structural)]
pub struct RecipientData {
    pub recipient: Identity,
    pub amount_received: u64,
}

/// The cumulative amount the records assign to `who`: the amount of the
/// first record for `who`, or 0 when no record exists. With at most one
/// record per recipient this is the amount of the record for `who`.
pub open spec fn ledger_amount(records: Seq<RecipientData>, who: Identity) -> int
    decreases records.len(),
{
    if records.len() == 0 {
        0
    } else if records[0].recipient == who {
        records[0].amount_received as int
    } else {
        ledger_amount(records.skip(1), who)
    }
}

/// Whether some record is for `who`.
pub open spec fn ledger_has(records: Seq<RecipientData>, who: Identity) -> bool {
    exists|i: int| 0 <= i < records.len() && records[i].recipient == who
}

/// At most one record per recipient.
pub open spec fn wf_records(records: Seq<RecipientData>) -> bool {
    forall|i: int, j: int|
        0 <= i < j < records.len() ==> records[i].recipient != records[j].recipient
}

/// Whatever the records, the amount assigned to a recipient is a `u64`
/// value: at least 0 and at most `u64::MAX`.
pub proof fn lemma_ledger_amount_bounds(records: Seq<RecipientData>, who: Identity)
    ensures
        0 <= ledger_amount(records, who) <= u64::MAX,
    decreases records.len(),
{
    if records.len() != 0 && records[0].recipient != who {
        lemma_ledger_amount_bounds(records.skip(1), who);
    }
}

/// The record at the earliest index for `who` is the one that carries
/// `who`'s amount.
pub proof fn lemma_ledger_amount_at(records: Seq<RecipientData>, who: Identity, i: int)
    requires
        0 <= i < records.len(),
        records[i].recipient == who,
        forall|j: int| 0 <= j < i ==> records[j].recipient != who,
    ensures
        ledger_amount(records, who) == records[i].amount_received,
        ledger_has(records, who),
    decreases i,
{
    if i > 0 {
        assert(records.skip(1)[i - 1] == records[i]);
        assert(forall|j: int| 0 <= j < i - 1 ==> records.skip(1)[j] == records[j + 1]);
        lemma_ledger_amount_at(records.skip(1), who, i - 1);
    }
}

/// A recipient without a record is assigned amount 0.
pub proof fn lemma_ledger_amount_absent(records: Seq<RecipientData>, who: Identity)
    requires
        forall|j: int| 0 <= j < records.len() ==> records[j].recipient != who,
    ensures
        ledger_amount(records, who) == 0,
        !ledger_has(records, who),
    decreases records.len(),
{
    if records.len() != 0 {
        assert(forall|j: int| 0 <= j < records.len() - 1 ==> records.skip(1)[j] == records[j + 1]);
        lemma_ledger_amount_absent(records.skip(1), who);
    }
}

/// Overwriting one record with one for the same recipient leaves every
/// other recipient's amount as it was.
pub proof fn lemma_ledger_amount_update_other(
    records: Seq<RecipientData>,
    i: int,
    rec: RecipientData,
    x: Identity,
)
    requires
        0 <= i < records.len(),
        rec.recipient == records[i].recipient,
        x != rec.recipient,
    ensures
        ledger_amount(records.update(i, rec), x) == ledger_amount(records, x),
    decreases records.len(),
{
    let updated = records.update(i, rec);
    if i == 0 {
        assert(updated.skip(1) =~= records.skip(1));
    } else {
        assert(updated[0] == records[0]);
        if records[0].recipient != x {
            assert(updated.skip(1) =~= records.skip(1).update(i - 1, rec));
            assert(records.skip(1)[i - 1] == records[i]);
            lemma_ledger_amount_update_other(records.skip(1), i - 1, rec, x);
        }
    }
}

/// Replacing records by others with the same recipients, record for
/// record, keeps the set of recipients that have a record.
pub proof fn lemma_ledger_has_same_recipients(s1: Seq<RecipientData>, s2: Seq<RecipientData>)
    requires
        s1.len() == s2.len(),
        forall|j: int| 0 <= j < s1.len() ==> s1[j].recipient == s2[j].recipient,
    ensures
        forall|x: Identity| ledger_has(s1, x) <==> ledger_has(s2, x),
{
    assert forall|x: Identity| ledger_has(s1, x) implies ledger_has(s2, x) by {
        let i = choose|i: int| 0 <= i < s1.len() && s1[i].recipient == x;
        assert(s2[i].recipient == x);
    }
    assert forall|x: Identity| ledger_has(s2, x) implies ledger_has(s1, x) by {
        let i = choose|i: int| 0 <= i < s2.len() && s2[i].recipient == x;
        assert(s1[i].recipient == x);
    }
}

/// Appending a record for a recipient that had none assigns that recipient
/// the new record's amount and leaves every other amount as it was.
pub proof fn lemma_ledger_amount_push(records: Seq<RecipientData>, rec: RecipientData, x: Identity)
    requires
        forall|j: int| 0 <= j < records.len() ==> records[j].recipient != rec.recipient,
    ensures
        ledger_amount(records.push(rec), x) == if x == rec.recipient {
            rec.amount_received as int
        } else {
            ledger_amount(records, x)
        },
        ledger_has(records.push(rec), x) <==> (ledger_has(records, x) || x == rec.recipient),
    decreases records.len(),
{
    let pushed = records.push(rec);
    if records.len() == 0 {
        assert(pushed[0] == rec);
        if x != rec.recipient {
            assert(forall|j: int| 0 <= j < pushed.skip(1).len() ==> pushed.skip(1)[j] == pushed[j + 1]);
            lemma_ledger_amount_absent(pushed.skip(1), x);
        }
    } else {
        assert(pushed[0] == records[0]);
        assert(pushed.skip(1) =~= records.skip(1).push(rec));
        assert(forall|j: int| 0 <= j < records.skip(1).len() ==> records.skip(1)[j] == records[j + 1]);
        lemma_ledger_amount_push(records.skip(1), rec, x);
        if records[0].recipient == x {
            assert(ledger_has(records, x));
        } else {
            if ledger_has(pushed, x) {
                let i = choose|i: int| 0 <= i < pushed.len() && pushed[i].recipient == x;
                assert(pushed.skip(1)[i - 1].recipient == x);
            }
            if ledger_has(records, x) {
                let i = choose|i: int| 0 <= i < records.len() && records[i].recipient == x;
                assert(pushed[i].recipient == x);
            }
            if ledger_has(records.skip(1).push(rec), x) {
                let i = choose|i: int|
                    0 <= i < records.skip(1).push(rec).len()
                        && records.skip(1).push(rec)[i].recipient == x;
                assert(pushed[i + 1].recipient == x);
            }
        }
    }
}

/// All records a scope has handed out, at most one per recipient.
pub struct RecipientLedger {
    pub(crate) records: Vec<RecipientData>,
}

impl View for RecipientLedger {
    type V = Seq<RecipientData>;

    closed spec fn view(&self) -> Seq<RecipientData> {
        self.records@
    }
}

impl RecipientLedger {
    /// At most one record per recipient.
    pub open spec fn wf(&self) -> bool {
        wf_records(self@)
    }

    /// A ledger with no records yet.
    pub fn new() -> (r: RecipientLedger)
        ensures
            r@.len() == 0,
            r.wf(),
    {
        RecipientLedger { records: Vec::new() }
    }

    /// The index of the record for `who`, if one exists.
    fn find(&self, who: Identity) -> (r: Option<usize>)
        ensures
            match r {
                Some(i) => i < self@.len() && self@[i as int].recipient == who && forall|j: int|
                    0 <= j < i ==> self@[j].recipient != who,
                None => forall|j: int| 0 <= j < self@.len() ==> self@[j].recipient != who,
            },
    {
        let n = self.records.len();
        let mut i: usize = 0;
        while i < n
            invariant
                i <= n,
                n == self@.len(),
                forall|j: int| 0 <= j < i ==> self@[j].recipient != who,
            decreases n - i,
        {
            if self.records[i].recipient == who {
                return Some(i);
            }
            i = i + 1;
        }
        None
    }

    /// Add `amount` to what `who` has received, creating `who`'s record if
    /// this is the first credit. Fails, changing nothing, exactly when the
    /// accumulated amount would not fit in a `u64`.
    pub fn credit(&mut self, who: Identity, amount: u64) -> (ok: bool)
        requires
            old(self).wf(),
        ensures
            final(self).wf(),
            ok <==> ledger_amount(old(self)@, who) + amount <= u64::MAX,
            !ok ==> final(self)@ == old(self)@,
            ok ==> forall|x: Identity|
                ledger_amount(final(self)@, x) == ledger_amount(old(self)@, x) + (
                if x == who {
                    amount as int
                } else {
                    0
                }),
            ok ==> forall|x: Identity|
                ledger_has(final(self)@, x) <==> (ledger_has(old(self)@, x) || x == who),
    {
        let ghost s0 = self@;
        match self.find(who) {
            Some(i) => {
                proof {
                    lemma_ledger_amount_at(s0, who, i as int);
                }
                let cur = self.records[i].amount_received;
                match cur.checked_add(amount) {
                    Some(v) => {
                        let rec = RecipientData { recipient: who, amount_received: v };
                        self.records[i] = rec;
                        proof {
                            assert forall|x: Identity|
                                ledger_amount(self@, x) == ledger_amount(s0, x) + (
                                if x == who {
                                    amount as int
                                } else {
                                    0
                                }) by {
                                if x == who {
                                    lemma_ledger_amount_at(self@, who, i as int);
                                } else {
                                    lemma_ledger_amount_update_other(s0, i as int, rec, x);
                                }
                            }
                            lemma_ledger_has_same_recipients(s0, self@);
                            assert(ledger_has(s0, who));
                        }
                        true
                    },
                    None => false,
                }
            },
            None => {
                proof {
                    lemma_ledger_amount_absent(s0, who);
                }
                let rec = RecipientData { recipient: who, amount_received: amount };
                self.records.push(rec);
                proof {
                    assert(self@ =~= s0.push(rec));
                    assert forall|x: Identity|
                        ledger_amount(self@, x) == ledger_amount(s0, x) + (
                        if x == who {
                            amount as int
                        } else {
                            0
                        }) by {
                        lemma_ledger_amount_push(s0, rec, x);
                        if x == who {
                            lemma_ledger_amount_absent(s0, who);
                        }
                    }
                    assert forall|x: Identity|
                        ledger_has(self@, x) <==> (ledger_has(s0, x) || x == who) by {
                        lemma_ledger_amount_push(s0, rec, x);
                    }
                    assert forall|i: int, j: int|
                        0 <= i < j < self@.len() implies self@[i].recipient != self@[j].recipient by {
                        if j == self@.len() - 1 {
                            assert(self@[i] == s0[i]);
                        }
                    }
                }
                true
            },
        }
    }

    /// The cumulative amount `who` has received: 0 when no record exists.
    pub fn amount_received_of(&self, who: Identity) -> (r: u64)
        ensures
            r == ledger_amount(self@, who),
    {
        match self.find(who) {
            Some(i) => {
                proof {
                    lemma_ledger_amount_at(self@, who, i as int);
                }
                self.records[i].amount_received
            },
            None => {
                proof {
                    lemma_ledger_amount_absent(self@, who);
                }
                0
            },
        }
    }

    /// Whether `who` has received anything at all, a record of its own.
    pub fn has_recipient(&self, who: Identity) -> (r: bool)
        ensures
            r == ledger_has(self@, who),
    {
        match self.find(who) {
            Some(_) => true,
            None => {
                proof {
                    lemma_ledger_amount_absent(self@, who);
                }
                false
            },
        }
    }

    /// How many recipients have a record.
    pub fn record_count(&self) -> (r: usize)
        ensures
            r == self@.len(),
    {
        self.records.len()
    }

    /// A copy of this ledger with the very same records.
    pub fn snapshot(&self) -> (r: RecipientLedger)
        ensures
            r@ == self@,
    {
        let n = self.records.len();
        let mut copied: Vec<RecipientData> = Vec::new();
        let mut i: usize = 0;
        while i < n
            invariant
                i <= n,
                n == self@.len(),
                copied@ =~= self@.take(i as int),
            decreases n - i,
        {
            copied.push(self.records[i]);
            i = i + 1;
        }
        proof {
            assert(copied@ =~= self@);
        }
        RecipientLedger { records: copied }
    }
}

} // verus!
