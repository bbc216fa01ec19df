//! Inference of transfers from the balances that one transaction left behind.
//!
//! The ledger records what each account held before and after a transaction,
//! not who paid whom. Every account whose balance of the tracked mint changed
//! gives one transfer; the other party is a best guess, exact when only two
//! accounts are involved.

use vstd::prelude::*;
use crate::models::{views, BalanceView, TokenBalance, TransactionRecord, TransactionView,
    TransferDirection, TransferView, USDCTransfer};

verus! {

/// The name that stands for a party that the balances do not reveal.
pub open spec fn unknown_party() -> Seq<char> {
    "unknown"@
}

/// What the first snapshot of `owner` for `mint` at or after position `start`
/// holds; nothing when there is no such snapshot.
pub open spec fn held_from(
    balances: Seq<BalanceView>,
    owner: Seq<char>,
    mint: Seq<char>,
    start: int,
) -> nat
    decreases balances.len() - start,
{
    if start < 0 || start >= balances.len() {
        0
    } else if balances[start].owner == owner && balances[start].mint == mint {
        balances[start].quantity()
    } else {
        held_from(balances, owner, mint, start + 1)
    }
}

/// The owner of the first snapshot for `mint` at or after position `start`.
pub open spec fn holder_from(balances: Seq<BalanceView>, mint: Seq<char>, start: int) -> Option<
    Seq<char>,
>
    decreases balances.len() - start,
{
    if start < 0 || start >= balances.len() {
        None
    } else if balances[start].mint == mint {
        Some(balances[start].owner)
    } else {
        holder_from(balances, mint, start + 1)
    }
}

/// The owner of the first snapshot for `mint` at or after position `start`
/// whose owner is not `excluded`.
pub open spec fn other_holder_from(
    balances: Seq<BalanceView>,
    mint: Seq<char>,
    excluded: Seq<char>,
    start: int,
) -> Option<Seq<char>>
    decreases balances.len() - start,
{
    if start < 0 || start >= balances.len() {
        None
    } else if balances[start].mint == mint && balances[start].owner != excluded {
        Some(balances[start].owner)
    } else {
        other_holder_from(balances, mint, excluded, start + 1)
    }
}

/// What `owner` held of `mint` before the transaction: the amount of the first
/// matching snapshot, and nothing for an account that had none.
pub open spec fn balance_before(pre: Seq<BalanceView>, owner: Seq<char>, mint: Seq<char>) -> nat {
    held_from(pre, owner, mint, 0)
}

/// The presumed sender of an incoming transfer: the owner of the first
/// snapshot for `mint` in the state before the transaction.
pub open spec fn presumed_sender(pre: Seq<BalanceView>, mint: Seq<char>) -> Seq<char> {
    match holder_from(pre, mint, 0) {
        Some(owner) => owner,
        None => unknown_party(),
    }
}

/// The presumed recipient of an outgoing transfer: the owner of the first
/// snapshot for `mint` in the state after the transaction that is not the
/// tracked wallet.
pub open spec fn presumed_recipient(post: Seq<BalanceView>, mint: Seq<char>, wallet: Seq<char>) -> Seq<
    char,
> {
    match other_holder_from(post, mint, wallet, 0) {
        Some(owner) => owner,
        None => unknown_party(),
    }
}

/// The distance between two amounts.
pub open spec fn distance(a: nat, b: nat) -> nat {
    if a >= b {
        (a - b) as nat
    } else {
        (b - a) as nat
    }
}

/// By how much the balance of the account behind `after` changed.
pub open spec fn change_of(tx: TransactionView, after: BalanceView) -> nat {
    distance(after.quantity(), balance_before(tx.pre, after.owner, after.mint))
}

/// The transfer that one snapshot of the state after the transaction gives:
/// none for another mint or an unchanged balance, else one whose direction the
/// snapshot's owner decides.
pub open spec fn transfer_of(
    wallet: Seq<char>,
    mint: Seq<char>,
    tx: TransactionView,
    after: BalanceView,
) -> Option<TransferView> {
    if after.mint != mint || change_of(tx, after) == 0 {
        None
    } else if after.owner == wallet {
        Some(
            TransferView {
                signature: tx.signature,
                timestamp: tx.timestamp,
                from: presumed_sender(tx.pre, mint),
                to: wallet,
                amount: change_of(tx, after),
                direction: TransferDirection::Incoming,
            },
        )
    } else {
        Some(
            TransferView {
                signature: tx.signature,
                timestamp: tx.timestamp,
                from: wallet,
                to: presumed_recipient(tx.post, mint, wallet),
                amount: change_of(tx, after),
                direction: TransferDirection::Outgoing,
            },
        )
    }
}

/// The transfers that the first `count` snapshots of the state after the
/// transaction give, in their order.
pub open spec fn transfers_upto(
    wallet: Seq<char>,
    mint: Seq<char>,
    tx: TransactionView,
    count: nat,
) -> Seq<TransferView>
    decreases count,
{
    if count == 0 {
        Seq::empty()
    } else {
        let earlier = transfers_upto(wallet, mint, tx, (count - 1) as nat);
        match transfer_of(wallet, mint, tx, tx.post[count - 1]) {
            Some(transfer) => earlier.push(transfer),
            None => earlier,
        }
    }
}

/// The transfers that a transaction gives for the tracked wallet and mint.
pub open spec fn transfers_of(wallet: Seq<char>, mint: Seq<char>, tx: TransactionView) -> Seq<
    TransferView,
> {
    transfers_upto(wallet, mint, tx, tx.post.len())
}

fn amount_before(pre: &Vec<TokenBalance>, owner: &String, mint: &String) -> (amount: u64)
    ensures
        amount == balance_before(views(pre@), owner@, mint@),
{
    let ghost balances = views(pre@);
    let mut i: usize = 0;
    while i < pre.len()
        invariant
            i <= pre.len(),
            balances == views(pre@),
            balance_before(balances, owner@, mint@) == held_from(balances, owner@, mint@, i as int),
        decreases pre.len() - i,
    {
        if pre[i].owner == *owner && pre[i].mint == *mint {
            return match pre[i].amount {
                Some(a) => a,
                None => 0,
            };
        }
        i += 1;
    }
    0
}

fn sender(pre: &Vec<TokenBalance>, mint: &String) -> (name: String)
    ensures
        name@ == presumed_sender(views(pre@), mint@),
{
    let ghost balances = views(pre@);
    let mut i: usize = 0;
    while i < pre.len()
        invariant
            i <= pre.len(),
            balances == views(pre@),
            holder_from(balances, mint@, 0) == holder_from(balances, mint@, i as int),
        decreases pre.len() - i,
    {
        if pre[i].mint == *mint {
            return pre[i].owner.clone();
        }
        i += 1;
    }
    "unknown".to_owned()
}

fn recipient(post: &Vec<TokenBalance>, mint: &String, wallet: &String) -> (name: String)
    ensures
        name@ == presumed_recipient(views(post@), mint@, wallet@),
{
    let ghost balances = views(post@);
    let mut i: usize = 0;
    while i < post.len()
        invariant
            i <= post.len(),
            balances == views(post@),
            other_holder_from(balances, mint@, wallet@, 0) == other_holder_from(
                balances,
                mint@,
                wallet@,
                i as int,
            ),
        decreases post.len() - i,
    {
        if post[i].mint == *mint && post[i].owner != *wallet {
            return post[i].owner.clone();
        }
        i += 1;
    }
    "unknown".to_owned()
}

/// Infers the transfers of one transaction: one for every snapshot of the
/// state after it that is for `mint` and whose amount differs from what the
/// same account held before, in the order of the snapshots. No transfer is
/// empty, an incoming one arrives at the tracked wallet, and an outgoing one
/// leaves it.
pub fn infer(tracked_wallet: &String, mint: &String, transaction: &TransactionRecord) -> (records:
    Vec<USDCTransfer>)
    ensures
        views(records@) == transfers_of(tracked_wallet@, mint@, transaction@),
        records.len() <= transaction.post.len(),
        forall|i: int|
            0 <= i < records.len() ==> {
                &&& (#[trigger] records[i]).amount > 0
                &&& records[i].signature@ == transaction.signature@
                &&& records[i].timestamp == transaction.timestamp
                &&& records[i].direction == TransferDirection::Incoming ==> records[i].to@
                    == tracked_wallet@
                &&& records[i].direction == TransferDirection::Outgoing ==> records[i].from@
                    == tracked_wallet@
            },
{
    let mut records: Vec<USDCTransfer> = Vec::new();
    let post = &transaction.post;
    let mut i: usize = 0;
    while i < post.len()
        invariant
            i <= post.len(),
            post == &transaction.post,
            views(records@) == transfers_upto(tracked_wallet@, mint@, transaction@, i as nat),
        decreases post.len() - i,
    {
        let after = &post[i];
        if after.mint == *mint {
            let before = amount_before(&transaction.pre, &after.owner, &after.mint);
            let now: u64 = match after.amount {
                Some(a) => a,
                None => 0,
            };
            let amount: u64 = if now >= before {
                now - before
            } else {
                before - now
            };
            if amount > 0 {
                let record = if after.owner == *tracked_wallet {
                    USDCTransfer {
                        signature: transaction.signature.clone(),
                        timestamp: transaction.timestamp,
                        from: sender(&transaction.pre, mint),
                        to: tracked_wallet.clone(),
                        amount,
                        direction: TransferDirection::Incoming,
                    }
                } else {
                    USDCTransfer {
                        signature: transaction.signature.clone(),
                        timestamp: transaction.timestamp,
                        from: tracked_wallet.clone(),
                        to: recipient(post, mint, tracked_wallet),
                        amount,
                        direction: TransferDirection::Outgoing,
                    }
                };
                records.push(record);
            }
        }
        i += 1;
    }
    proof {
        law_at_most_one_per_snapshot(tracked_wallet@, mint@, transaction@);
        assert forall|i: int| 0 <= i < records.len() implies {
            &&& (#[trigger] records[i]).amount > 0
            &&& records[i].signature@ == transaction.signature@
            &&& records[i].timestamp == transaction.timestamp
            &&& records[i].direction == TransferDirection::Incoming ==> records[i].to@
                == tracked_wallet@
            &&& records[i].direction == TransferDirection::Outgoing ==> records[i].from@
                == tracked_wallet@
        } by {
            assert(views(records@)[i] == records[i]@);
            law_amount_is_the_change(tracked_wallet@, mint@, transaction@, i);
            law_direction_names_the_wallet(tracked_wallet@, mint@, transaction@, i);
        }
    }
    records
}

/// Every transfer among the first `count` snapshots' transfers is the
/// transfer of one of those snapshots.
proof fn lemma_origin(wallet: Seq<char>, mint: Seq<char>, tx: TransactionView, count: nat, i: int)
    requires
        count <= tx.post.len(),
        0 <= i < transfers_upto(wallet, mint, tx, count).len(),
    ensures
        exists|j: int|
            0 <= j < count && #[trigger] transfer_of(wallet, mint, tx, tx.post[j]) == Some(
                transfers_upto(wallet, mint, tx, count)[i],
            ),
    decreases count,
{
    if i < transfers_upto(wallet, mint, tx, (count - 1) as nat).len() {
        lemma_origin(wallet, mint, tx, (count - 1) as nat, i);
    }
}

/// A transaction gives at most one transfer for each snapshot of the state
/// after it.
pub proof fn law_at_most_one_per_snapshot(wallet: Seq<char>, mint: Seq<char>, tx: TransactionView)
    ensures
        transfers_of(wallet, mint, tx).len() <= tx.post.len(),
{
    lemma_count(wallet, mint, tx, tx.post.len());
}

proof fn lemma_count(wallet: Seq<char>, mint: Seq<char>, tx: TransactionView, count: nat)
    ensures
        transfers_upto(wallet, mint, tx, count).len() <= count,
    decreases count,
{
    if count > 0 {
        lemma_count(wallet, mint, tx, (count - 1) as nat);
    }
}

/// Every inferred transfer comes from one snapshot of the state after the
/// transaction, for the tracked mint, whose amount differs from what the same
/// account held before; the transfer's amount is that difference, and it is
/// never zero. It carries the transaction's signature and timestamp.
pub proof fn law_amount_is_the_change(
    wallet: Seq<char>,
    mint: Seq<char>,
    tx: TransactionView,
    i: int,
)
    requires
        0 <= i < transfers_of(wallet, mint, tx).len(),
    ensures
        transfers_of(wallet, mint, tx)[i].amount > 0,
        transfers_of(wallet, mint, tx)[i].signature == tx.signature,
        transfers_of(wallet, mint, tx)[i].timestamp == tx.timestamp,
        exists|j: int|
            0 <= j < tx.post.len() && (#[trigger] tx.post[j]).mint == mint && transfers_of(
                wallet,
                mint,
                tx,
            )[i].amount == distance(
                tx.post[j].quantity(),
                balance_before(tx.pre, tx.post[j].owner, mint),
            ),
{
    lemma_origin(wallet, mint, tx, tx.post.len(), i);
}

/// An incoming transfer arrives at the tracked wallet, and an outgoing one
/// leaves it.
pub proof fn law_direction_names_the_wallet(
    wallet: Seq<char>,
    mint: Seq<char>,
    tx: TransactionView,
    i: int,
)
    requires
        0 <= i < transfers_of(wallet, mint, tx).len(),
    ensures
        transfers_of(wallet, mint, tx)[i].direction == TransferDirection::Incoming
            ==> transfers_of(wallet, mint, tx)[i].to == wallet,
        transfers_of(wallet, mint, tx)[i].direction == TransferDirection::Outgoing
            ==> transfers_of(wallet, mint, tx)[i].from == wallet,
{
    lemma_origin(wallet, mint, tx, tx.post.len(), i);
}

/// A changed balance of the tracked wallet gives an incoming transfer to the
/// wallet, and a changed balance of any other account gives an outgoing
/// transfer from the wallet; either way the amount is the change.
pub proof fn law_owner_decides_direction(
    wallet: Seq<char>,
    mint: Seq<char>,
    tx: TransactionView,
    after: BalanceView,
)
    requires
        after.mint == mint,
        after.quantity() != balance_before(tx.pre, after.owner, mint),
    ensures
        transfer_of(wallet, mint, tx, after) is Some,
        transfer_of(wallet, mint, tx, after)->0.amount == distance(
            after.quantity(),
            balance_before(tx.pre, after.owner, mint),
        ),
        after.owner == wallet ==> {
            &&& transfer_of(wallet, mint, tx, after)->0.direction == TransferDirection::Incoming
            &&& transfer_of(wallet, mint, tx, after)->0.to == wallet
        },
        after.owner != wallet ==> {
            &&& transfer_of(wallet, mint, tx, after)->0.direction == TransferDirection::Outgoing
            &&& transfer_of(wallet, mint, tx, after)->0.from == wallet
        },
{
}

/// A transaction that moves the token between the tracked wallet and one
/// other account, the wallet's snapshot standing first on both sides, gives
/// two transfers: the wallet's own change as an incoming one, and the other
/// account's change as an outgoing one from the wallet to that account.
pub proof fn law_two_party_transfer(
    wallet: Seq<char>,
    mint: Seq<char>,
    tx: TransactionView,
    other: Seq<char>,
)
    requires
        other != wallet,
        tx.pre.len() == 2,
        tx.post.len() == 2,
        tx.pre[0].owner == wallet && tx.pre[0].mint == mint,
        tx.pre[1].owner == other && tx.pre[1].mint == mint,
        tx.post[0].owner == wallet && tx.post[0].mint == mint,
        tx.post[1].owner == other && tx.post[1].mint == mint,
        tx.pre[0].quantity() != tx.post[0].quantity(),
        tx.pre[1].quantity() != tx.post[1].quantity(),
    ensures
        transfers_of(wallet, mint, tx) == seq![
            TransferView {
                signature: tx.signature,
                timestamp: tx.timestamp,
                from: wallet,
                to: wallet,
                amount: distance(tx.post[0].quantity(), tx.pre[0].quantity()),
                direction: TransferDirection::Incoming,
            },
            TransferView {
                signature: tx.signature,
                timestamp: tx.timestamp,
                from: wallet,
                to: other,
                amount: distance(tx.post[1].quantity(), tx.pre[1].quantity()),
                direction: TransferDirection::Outgoing,
            },
        ],
{
    reveal_with_fuel(transfers_upto, 3);
    reveal_with_fuel(held_from, 3);
    reveal_with_fuel(holder_from, 2);
    reveal_with_fuel(other_holder_from, 3);
}

/// A transaction that leaves every account's balance of the tracked mint as
/// it was gives no transfer.
pub proof fn law_unchanged_balances_give_nothing(
    wallet: Seq<char>,
    mint: Seq<char>,
    tx: TransactionView,
)
    requires
        forall|j: int|
            0 <= j < tx.post.len() && (#[trigger] tx.post[j]).mint == mint
                ==> tx.post[j].quantity() == balance_before(tx.pre, tx.post[j].owner, mint),
    ensures
        transfers_of(wallet, mint, tx) == Seq::<TransferView>::empty(),
{
    lemma_unchanged(wallet, mint, tx, tx.post.len());
}

proof fn lemma_unchanged(wallet: Seq<char>, mint: Seq<char>, tx: TransactionView, count: nat)
    requires
        count <= tx.post.len(),
        forall|j: int|
            0 <= j < tx.post.len() && (#[trigger] tx.post[j]).mint == mint
                ==> tx.post[j].quantity() == balance_before(tx.pre, tx.post[j].owner, mint),
    ensures
        transfers_upto(wallet, mint, tx, count) == Seq::<TransferView>::empty(),
    decreases count,
{
    if count > 0 {
        lemma_unchanged(wallet, mint, tx, (count - 1) as nat);
    }
}

} // verus!
