//! The whole reconstruction: scan the signatures, resolve those in the
//! window, infer the transfers of each, and sum them up.

use vstd::prelude::*;
use crate::aggregate::{aggregate, TransferSummary};
use crate::inference::{infer, law_amount_is_the_change, transfers_of};
use crate::models::{views, TransferView, USDCTransfer};
use crate::resolver::{answer_view, resolution_of, resolve, FetchedTransaction, FetchedView,
    Resolution, ResolutionView};
use crate::scanner::{end_from, lemma_end_from, lemma_scan_end_is, scan_end, standing,
    standing_of, EntryView, SignatureEntry, Standing};
use crate::window::TimeWindow;

verus! {

/// One entry of a recorded history together with what the ledger answered
/// when the transaction was looked up: nothing where it did not have it.
#[derive(Debug, PartialEq, Eq)]
pub struct LedgerItem {
    pub entry: SignatureEntry,
    pub transaction: Option<FetchedTransaction>,
}

/// What a `LedgerItem` stands for in contracts.
pub ghost struct ItemView {
    pub entry: EntryView,
    pub transaction: Option<FetchedView>,
}

impl View for LedgerItem {
    type V = ItemView;

    open spec fn view(&self) -> ItemView {
        ItemView { entry: self.entry@, transaction: answer_view(self.transaction) }
    }
}

/// The entries of a recorded history.
pub open spec fn entries_of(ledger: Seq<ItemView>) -> Seq<EntryView> {
    Seq::new(ledger.len(), |i: int| ledger[i].entry)
}

/// The transfers that one entry gives, once the ledger has answered: those
/// of its transaction, and none where the entry has no time or the ledger
/// lacks the transaction or the record of its execution.
pub open spec fn entry_transfers(
    wallet: Seq<char>,
    mint: Seq<char>,
    entry: EntryView,
    fetched: Option<FetchedView>,
) -> Seq<TransferView> {
    match entry.block_time {
        None => Seq::empty(),
        Some(time) => match resolution_of(entry.signature, time, fetched, mint) {
            ResolutionView::Resolved(transaction) => transfers_of(wallet, mint, transaction),
            _ => Seq::empty(),
        },
    }
}

/// What one item of a recorded history adds to a reconstruction: the
/// transfers of its entry where that lies in the window, else nothing.
pub open spec fn item_transfers(
    wallet: Seq<char>,
    mint: Seq<char>,
    window: TimeWindow,
    item: ItemView,
) -> Seq<TransferView> {
    if standing_of(window, item.entry) == Standing::Inside {
        entry_transfers(wallet, mint, item.entry, item.transaction)
    } else {
        Seq::empty()
    }
}

/// What the first `count` items of a recorded history add, one after the
/// other.
pub open spec fn collected_upto(
    wallet: Seq<char>,
    mint: Seq<char>,
    window: TimeWindow,
    ledger: Seq<ItemView>,
    count: nat,
) -> Seq<TransferView>
    decreases count,
{
    if count == 0 {
        Seq::empty()
    } else {
        collected_upto(wallet, mint, window, ledger, (count - 1) as nat) + item_transfers(
            wallet,
            mint,
            window,
            ledger[count - 1],
        )
    }
}

/// The transfers that a recorded history holds for the wallet, the mint and
/// the window: what the items before the first entry older than the window
/// add, in the order of the history.
pub open spec fn reconstructed(
    wallet: Seq<char>,
    mint: Seq<char>,
    window: TimeWindow,
    ledger: Seq<ItemView>,
) -> Seq<TransferView> {
    collected_upto(wallet, mint, window, ledger, scan_end(window, entries_of(ledger)) as nat)
}

/// The transfers of one entry, from the ledger's answer to the lookup of its
/// transaction.
pub fn transfers_of_entry(
    tracked_wallet: &String,
    mint: &String,
    entry: &SignatureEntry,
    fetched: &Option<FetchedTransaction>,
) -> (records: Vec<USDCTransfer>)
    ensures
        views(records@) == entry_transfers(
            tracked_wallet@,
            mint@,
            entry@,
            answer_view(*fetched),
        ),
{
    match entry.block_time {
        None => Vec::new(),
        Some(time) => match resolve(&entry.signature, time, fetched, mint) {
            Resolution::Resolved(transaction) => infer(tracked_wallet, mint, &transaction),
            _ => Vec::new(),
        },
    }
}

/// Collects the transfers of a recorded history that runs from the newest
/// entry to the oldest. Nothing is read from the first entry older than the
/// window on, and every transfer bears a time in the window.
pub fn collect_transfers(
    tracked_wallet: &String,
    mint: &String,
    window: &TimeWindow,
    ledger: &Vec<LedgerItem>,
) -> (records: Vec<USDCTransfer>)
    ensures
        views(records@) == reconstructed(tracked_wallet@, mint@, *window, views(ledger@)),
        forall|i: int|
            0 <= i < records.len() ==> window.holds((#[trigger] records[i]).timestamp as int)
                && records[i].amount > 0,
{
    let ghost items = views(ledger@);
    let ghost log = entries_of(items);
    let mut records: Vec<USDCTransfer> = Vec::new();
    let mut i: usize = 0;
    while i < ledger.len()
        invariant
            i <= ledger.len(),
            items == views(ledger@),
            log == entries_of(items),
            scan_end(*window, log) == end_from(*window, log, i as int),
            views(records@) == collected_upto(tracked_wallet@, mint@, *window, items, i as nat),
        decreases ledger.len() - i,
    {
        let item = &ledger[i];
        match standing(window, &item.entry) {
            Standing::Older => {
                proof {
                    lemma_collected_lie_inside(tracked_wallet@, mint@, *window, items, records@);
                }
                return records;
            },
            Standing::Inside => {
                let mut found = transfers_of_entry(
                    tracked_wallet,
                    mint,
                    &item.entry,
                    &item.transaction,
                );
                records.append(&mut found);
            },
            _ => {},
        }
        i += 1;
    }
    proof {
        lemma_collected_lie_inside(tracked_wallet@, mint@, *window, items, records@);
    }
    records
}

/// Transfers whose views are what a history holds bear times in the window.
proof fn lemma_collected_lie_inside(
    wallet: Seq<char>,
    mint: Seq<char>,
    window: TimeWindow,
    ledger: Seq<ItemView>,
    records: Seq<USDCTransfer>,
)
    requires
        views(records) == reconstructed(wallet, mint, window, ledger),
    ensures
        forall|i: int|
            0 <= i < records.len() ==> window.holds((#[trigger] records[i]).timestamp as int)
                && records[i].amount > 0,
{
    assert forall|i: int| 0 <= i < records.len() implies window.holds(
        (#[trigger] records[i]).timestamp as int,
    ) && records[i].amount > 0 by {
        assert(views(records)[i] == records[i]@);
        law_transfers_lie_in_the_window(wallet, mint, window, ledger, i);
    }
}

/// Reconstructs the transfers of a recorded history and sums them up.
pub fn reconstruct(
    tracked_wallet: &String,
    mint: &String,
    window: &TimeWindow,
    ledger: &Vec<LedgerItem>,
) -> (summary: TransferSummary)
    ensures
        views(summary.records@) == reconstructed(tracked_wallet@, mint@, *window, views(ledger@)),
        summary.total_in == crate::aggregate::total(
            views(summary.records@),
            crate::models::TransferDirection::Incoming,
        ),
        summary.total_out == crate::aggregate::total(
            views(summary.records@),
            crate::models::TransferDirection::Outgoing,
        ),
        summary.net.well_formed(),
        summary.net.value() == summary.total_in - summary.total_out,
{
    aggregate(collect_transfers(tracked_wallet, mint, window, ledger))
}

/// What the first `count` items add is the same in two histories that agree
/// on their first `count` items.
proof fn lemma_collected_prefix(
    wallet: Seq<char>,
    mint: Seq<char>,
    window: TimeWindow,
    ledger: Seq<ItemView>,
    other: Seq<ItemView>,
    count: nat,
)
    requires
        count <= ledger.len(),
        count <= other.len(),
        forall|j: int| 0 <= j < count ==> ledger[j] == other[j],
    ensures
        collected_upto(wallet, mint, window, ledger, count) == collected_upto(
            wallet,
            mint,
            window,
            other,
            count,
        ),
    decreases count,
{
    if count > 0 {
        lemma_collected_prefix(wallet, mint, window, ledger, other, (count - 1) as nat);
    }
}

/// Every transfer that the first `count` items add is a transfer of one of
/// those items.
proof fn lemma_collected_origin(
    wallet: Seq<char>,
    mint: Seq<char>,
    window: TimeWindow,
    ledger: Seq<ItemView>,
    count: nat,
    i: int,
)
    requires
        count <= ledger.len(),
        0 <= i < collected_upto(wallet, mint, window, ledger, count).len(),
    ensures
        exists|j: int, k: int|
            0 <= j < count && 0 <= k < item_transfers(wallet, mint, window, ledger[j]).len()
                && #[trigger] item_transfers(wallet, mint, window, ledger[j])[k] == collected_upto(
                wallet,
                mint,
                window,
                ledger,
                count,
            )[i],
    decreases count,
{
    let all = collected_upto(wallet, mint, window, ledger, count);
    let earlier = collected_upto(wallet, mint, window, ledger, (count - 1) as nat);
    if i < earlier.len() {
        lemma_collected_origin(wallet, mint, window, ledger, (count - 1) as nat, i);
    } else {
        let k = i - earlier.len();
        assert(item_transfers(wallet, mint, window, ledger[count - 1])[k] == all[i]);
    }
}

/// Every reconstructed transfer bears a time that lies in the window, however
/// many older entries the history holds; and it moved some of the token.
pub proof fn law_transfers_lie_in_the_window(
    wallet: Seq<char>,
    mint: Seq<char>,
    window: TimeWindow,
    ledger: Seq<ItemView>,
    i: int,
)
    requires
        0 <= i < reconstructed(wallet, mint, window, ledger).len(),
    ensures
        window.holds(reconstructed(wallet, mint, window, ledger)[i].timestamp),
        reconstructed(wallet, mint, window, ledger)[i].amount > 0,
{
    let log = entries_of(ledger);
    lemma_end_from(window, log, 0);
    let end = scan_end(window, log) as nat;
    lemma_collected_origin(wallet, mint, window, ledger, end, i);
    let (j, k) = choose|j: int, k: int|
        0 <= j < end && 0 <= k < item_transfers(wallet, mint, window, ledger[j]).len()
            && #[trigger] item_transfers(wallet, mint, window, ledger[j])[k] == reconstructed(
            wallet,
            mint,
            window,
            ledger,
        )[i];
    let item = ledger[j];
    let time = item.entry.block_time->0;
    match resolution_of(item.entry.signature, time, item.transaction, mint) {
        ResolutionView::Resolved(transaction) => {
            law_amount_is_the_change(wallet, mint, transaction, k);
        },
        _ => {},
    }
}

/// A reconstruction reads nothing from the first entry older than the window
/// on: whatever the history holds from such an entry on, newer entries too,
/// the result is that of the part before it.
pub proof fn law_nothing_is_read_past_an_older_entry(
    wallet: Seq<char>,
    mint: Seq<char>,
    window: TimeWindow,
    ledger: Seq<ItemView>,
    at: int,
)
    requires
        0 <= at < ledger.len(),
        standing_of(window, ledger[at].entry) == Standing::Older,
    ensures
        reconstructed(wallet, mint, window, ledger) == reconstructed(
            wallet,
            mint,
            window,
            ledger.take(at),
        ),
{
    let log = entries_of(ledger);
    let part = ledger.take(at);
    let part_log = entries_of(part);
    lemma_end_from(window, log, 0);
    let end = scan_end(window, log);
    if end > at {
        assert(standing_of(window, log[at]) != Standing::Older);
    }
    assert forall|j: int| 0 <= j < end implies standing_of(window, #[trigger] part_log[j])
        != Standing::Older by {
        assert(part_log[j] == log[j]);
    }
    lemma_scan_end_is(window, part_log, end);
    lemma_collected_prefix(wallet, mint, window, ledger, part, end as nat);
}

/// Taking out an item that adds nothing leaves what the items up to a later
/// position add as it was.
proof fn lemma_collected_without(
    wallet: Seq<char>,
    mint: Seq<char>,
    window: TimeWindow,
    ledger: Seq<ItemView>,
    at: int,
    count: nat,
)
    requires
        0 <= at < count <= ledger.len(),
        item_transfers(wallet, mint, window, ledger[at]).len() == 0,
    ensures
        collected_upto(wallet, mint, window, ledger.remove(at), (count - 1) as nat)
            == collected_upto(wallet, mint, window, ledger, count),
    decreases count,
{
    if count == at + 1 {
        lemma_collected_prefix(wallet, mint, window, ledger.remove(at), ledger, at as nat);
    } else {
        lemma_collected_without(wallet, mint, window, ledger, at, (count - 1) as nat);
    }
}

/// An entry whose transaction the ledger kept without the record of its
/// execution counts for nothing: the result is what it would be had the
/// history never held the entry. The one entry that this cannot be said of is
/// the entry at which the scan stops, which is never looked up.
pub proof fn law_missing_metadata_is_tolerated(
    wallet: Seq<char>,
    mint: Seq<char>,
    window: TimeWindow,
    ledger: Seq<ItemView>,
    at: int,
)
    requires
        0 <= at < ledger.len(),
        ledger[at].transaction == Some(FetchedView { meta: None }),
        at != scan_end(window, entries_of(ledger)),
    ensures
        reconstructed(wallet, mint, window, ledger.remove(at)) == reconstructed(
            wallet,
            mint,
            window,
            ledger,
        ),
{
    let log = entries_of(ledger);
    let rest = ledger.remove(at);
    let rest_log = entries_of(rest);
    lemma_end_from(window, log, 0);
    let end = scan_end(window, log);
    if at < end {
        assert forall|j: int| 0 <= j < end - 1 implies standing_of(window, #[trigger] rest_log[j])
            != Standing::Older by {
            if j < at {
                assert(rest_log[j] == log[j]);
            } else {
                assert(rest_log[j] == log[j + 1]);
            }
        }
        lemma_scan_end_is(window, rest_log, end - 1);
        lemma_collected_without(wallet, mint, window, ledger, at, end as nat);
    } else {
        assert forall|j: int| 0 <= j < end implies standing_of(window, #[trigger] rest_log[j])
            != Standing::Older by {
            assert(rest_log[j] == log[j]);
        }
        lemma_scan_end_is(window, rest_log, end);
        lemma_collected_prefix(wallet, mint, window, rest, ledger, end as nat);
    }
}

} // verus!
