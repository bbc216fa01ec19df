//! Totals over the transfers of a scan.

use vstd::prelude::*;
use crate::models::{views, TransferDirection, TransferView, USDCTransfer};

verus! {

/// A difference of two totals: its size and whether it lies below zero.
#[derive(Clone, Copy, Debug, PartialEq, Eq, Structural)]
pub struct NetAmount {
    pub negative: bool,
    pub magnitude: u128,
}

impl NetAmount {
    /// The number that this stands for.
    pub open spec fn value(self) -> int {
        if self.negative {
            -(self.magnitude as int)
        } else {
            self.magnitude as int
        }
    }

    /// Zero is never written as negative, so that every number is written in
    /// one way only.
    pub open spec fn well_formed(self) -> bool {
        self.negative ==> self.magnitude > 0
    }

    /// The difference `gained - spent`.
    pub fn between(gained: u128, spent: u128) -> (net: NetAmount)
        ensures
            net.well_formed(),
            net.value() == gained - spent,
    {
        if gained >= spent {
            NetAmount { negative: false, magnitude: gained - spent }
        } else {
            NetAmount { negative: true, magnitude: spent - gained }
        }
    }
}

/// The transfers of a scan in the order in which they were found, with what
/// came in, what went out, and the difference.
#[derive(Debug, PartialEq, Eq)]
pub struct TransferSummary {
    pub records: Vec<USDCTransfer>,
    pub total_in: u128,
    pub total_out: u128,
    pub net: NetAmount,
}

/// What a transfer adds to the total of `direction`.
pub open spec fn share(transfer: TransferView, direction: TransferDirection) -> nat {
    if transfer.direction == direction {
        transfer.amount
    } else {
        0
    }
}

/// The sum of the amounts of the transfers that go in `direction`.
pub open spec fn total(records: Seq<TransferView>, direction: TransferDirection) -> nat
    decreases records.len(),
{
    if records.len() == 0 {
        0
    } else {
        total(records.drop_last(), direction) + share(records.last(), direction)
    }
}

/// No amount exceeds what 64 bits hold, so a total is bounded by the number
/// of transfers.
proof fn lemma_total_bound(records: Seq<USDCTransfer>, direction: TransferDirection, count: int)
    requires
        0 <= count <= records.len(),
    ensures
        total(views(records).take(count), direction) <= count * u64::MAX,
    decreases count,
{
    let taken = views(records).take(count);
    if count > 0 {
        lemma_total_bound(records, direction, count - 1);
        assert(taken.drop_last() == views(records).take(count - 1));
        assert((count - 1) * u64::MAX + u64::MAX == count * u64::MAX) by (nonlinear_arith);
    }
}

proof fn lemma_total_fits(count: int)
    requires
        0 <= count <= usize::MAX,
    ensures
        count * u64::MAX <= u128::MAX,
{
    assert(count * u64::MAX <= u64::MAX * u64::MAX) by (nonlinear_arith)
        requires
            0 <= count <= u64::MAX,
    ;
    assert(u64::MAX * u64::MAX <= u128::MAX) by (nonlinear_arith);
}

/// Sums the transfers by direction. The records are handed back as they came,
/// in the same order.
pub fn aggregate(records: Vec<USDCTransfer>) -> (summary: TransferSummary)
    ensures
        summary.records == records,
        summary.total_in == total(views(records@), TransferDirection::Incoming),
        summary.total_out == total(views(records@), TransferDirection::Outgoing),
        summary.net.well_formed(),
        summary.net.value() == summary.total_in - summary.total_out,
{
    let mut total_in: u128 = 0;
    let mut total_out: u128 = 0;
    let mut i: usize = 0;
    while i < records.len()
        invariant
            i <= records.len(),
            total_in == total(views(records@).take(i as int), TransferDirection::Incoming),
            total_out == total(views(records@).take(i as int), TransferDirection::Outgoing),
        decreases records.len() - i,
    {
        proof {
            let next = views(records@).take(i + 1);
            assert(next.drop_last() == views(records@).take(i as int));
            lemma_total_bound(records@, TransferDirection::Incoming, i + 1);
            lemma_total_bound(records@, TransferDirection::Outgoing, i + 1);
            lemma_total_fits(i + 1);
        }
        match records[i].direction {
            TransferDirection::Incoming => {
                total_in = total_in + records[i].amount as u128;
            },
            TransferDirection::Outgoing => {
                total_out = total_out + records[i].amount as u128;
            },
        }
        i += 1;
    }
    assert(views(records@).take(i as int) == views(records@));
    let net = NetAmount::between(total_in, total_out);
    TransferSummary { records, total_in, total_out, net }
}

/// The totals of two runs of transfers, one after the other, add up.
pub proof fn law_totals_add_up(
    first: Seq<TransferView>,
    second: Seq<TransferView>,
    direction: TransferDirection,
)
    ensures
        total(first + second, direction) == total(first, direction) + total(second, direction),
    decreases second.len(),
{
    if second.len() > 0 {
        law_totals_add_up(first, second.drop_last(), direction);
        assert((first + second).drop_last() == first + second.drop_last());
    }
}

/// What came in and what went out together are all that moved: every
/// transfer counts in exactly one of the two totals.
pub proof fn law_every_transfer_counts_once(records: Seq<TransferView>)
    ensures
        total(records, TransferDirection::Incoming) + total(records, TransferDirection::Outgoing)
            == volume(records),
    decreases records.len(),
{
    if records.len() > 0 {
        law_every_transfer_counts_once(records.drop_last());
    }
}

/// The sum of all amounts, whatever the direction.
pub open spec fn volume(records: Seq<TransferView>) -> nat
    decreases records.len(),
{
    if records.len() == 0 {
        0
    } else {
        volume(records.drop_last()) + records.last().amount
    }
}

} // verus!
