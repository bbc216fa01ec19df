//! From what the ledger returns for a signature to the balances of the
//! tracked mint before and after the transaction.

use vstd::prelude::*;
use crate::inference::{held_from, holder_from, other_holder_from, transfer_of, transfers_of,
    transfers_upto};
use crate::models::{views, BalanceView, TokenBalance, TransactionRecord, TransactionView,
    TransferView};

verus! {

/// The part of a transaction's record that tells what its execution did to
/// token balances, for every mint that it touched.
#[derive(Debug, PartialEq, Eq)]
pub struct TransactionMeta {
    pub pre_token_balances: Vec<TokenBalance>,
    pub post_token_balances: Vec<TokenBalance>,
}

/// What a `TransactionMeta` stands for in contracts.
pub ghost struct MetaView {
    pub pre: Seq<BalanceView>,
    pub post: Seq<BalanceView>,
}

impl View for TransactionMeta {
    type V = MetaView;

    open spec fn view(&self) -> MetaView {
        MetaView { pre: views(self.pre_token_balances@), post: views(self.post_token_balances@) }
    }
}

/// A transaction as the ledger returned it. The ledger may have kept the
/// transaction without the record of its execution.
#[derive(Debug, PartialEq, Eq)]
pub struct FetchedTransaction {
    pub meta: Option<TransactionMeta>,
}

/// What the ledger's answer to a lookup stands for in contracts: nothing
/// where it did not have the transaction, else the record of its execution,
/// where it kept one.
pub ghost struct FetchedView {
    pub meta: Option<MetaView>,
}

impl View for FetchedTransaction {
    type V = FetchedView;

    open spec fn view(&self) -> FetchedView {
        FetchedView {
            meta: match self.meta {
                Some(meta) => Some(meta@),
                None => None,
            },
        }
    }
}

/// The view of the ledger's answer to a lookup.
pub open spec fn answer_view(fetched: Option<FetchedTransaction>) -> Option<FetchedView> {
    match fetched {
        Some(transaction) => Some(transaction@),
        None => None,
    }
}

/// What became of the lookup of one signature.
#[derive(Debug, PartialEq, Eq)]
pub enum Resolution {
    /// The transaction was found with the record of its execution.
    Resolved(TransactionRecord),
    /// The ledger does not have the transaction.
    NotFound,
    /// The ledger has the transaction without the record of its execution.
    NoMetadata,
}

/// What a `Resolution` stands for in contracts.
pub ghost enum ResolutionView {
    Resolved(TransactionView),
    NotFound,
    NoMetadata,
}

impl View for Resolution {
    type V = ResolutionView;

    open spec fn view(&self) -> ResolutionView {
        match self {
            Resolution::Resolved(record) => ResolutionView::Resolved(record@),
            Resolution::NotFound => ResolutionView::NotFound,
            Resolution::NoMetadata => ResolutionView::NoMetadata,
        }
    }
}

/// The snapshots for `mint` at or after position `start`, in their order.
pub open spec fn of_mint_from(balances: Seq<BalanceView>, mint: Seq<char>, start: int) -> Seq<
    BalanceView,
>
    decreases balances.len() - start,
{
    if start < 0 || start >= balances.len() {
        Seq::empty()
    } else if balances[start].mint == mint {
        seq![balances[start]] + of_mint_from(balances, mint, start + 1)
    } else {
        of_mint_from(balances, mint, start + 1)
    }
}

/// The snapshots for `mint`, in their order.
pub open spec fn of_mint(balances: Seq<BalanceView>, mint: Seq<char>) -> Seq<BalanceView> {
    of_mint_from(balances, mint, 0)
}

/// What the lookup of `signature` comes to, given the ledger's answer: the
/// transaction with the snapshots for `mint` alone, unless the ledger lacks
/// the transaction or the record of its execution.
pub open spec fn resolution_of(
    signature: Seq<char>,
    timestamp: int,
    fetched: Option<FetchedView>,
    mint: Seq<char>,
) -> ResolutionView {
    match fetched {
        None => ResolutionView::NotFound,
        Some(FetchedView { meta: None }) => ResolutionView::NoMetadata,
        Some(FetchedView { meta: Some(meta) }) => ResolutionView::Resolved(
            TransactionView {
                signature,
                timestamp,
                pre: of_mint(meta.pre, mint),
                post: of_mint(meta.post, mint),
            },
        ),
    }
}

/// Copies the snapshots for `mint`, in their order.
pub fn keep_mint(balances: &Vec<TokenBalance>, mint: &String) -> (kept: Vec<TokenBalance>)
    ensures
        views(kept@) == of_mint(views(balances@), mint@),
{
    let ghost all = views(balances@);
    let mut kept: Vec<TokenBalance> = Vec::new();
    let mut i: usize = 0;
    while i < balances.len()
        invariant
            i <= balances.len(),
            all == views(balances@),
            of_mint(all, mint@) == views(kept@) + of_mint_from(all, mint@, i as int),
        decreases balances.len() - i,
    {
        if balances[i].mint == *mint {
            kept.push(balances[i].clone());
        }
        i += 1;
    }
    kept
}

/// Resolves the lookup of one signature from the ledger's answer. The
/// snapshots of other mints are dropped at once.
pub fn resolve(
    signature: &String,
    timestamp: i64,
    fetched: &Option<FetchedTransaction>,
    mint: &String,
) -> (resolution: Resolution)
    ensures
        resolution@ == resolution_of(signature@, timestamp as int, answer_view(*fetched), mint@),
{
    match fetched {
        None => Resolution::NotFound,
        Some(transaction) => match &transaction.meta {
            None => Resolution::NoMetadata,
            Some(meta) => Resolution::Resolved(
                TransactionRecord {
                    signature: signature.clone(),
                    timestamp,
                    pre: keep_mint(&meta.pre_token_balances, mint),
                    post: keep_mint(&meta.post_token_balances, mint),
                },
            ),
        },
    }
}

/// A transaction with the snapshots for `mint` alone.
pub open spec fn narrowed(transaction: TransactionView, mint: Seq<char>) -> TransactionView {
    TransactionView {
        signature: transaction.signature,
        timestamp: transaction.timestamp,
        pre: of_mint(transaction.pre, mint),
        post: of_mint(transaction.post, mint),
    }
}

/// Behind a first snapshot, a search goes on as through the rest alone.
proof fn lemma_held_shift(
    first: BalanceView,
    rest: Seq<BalanceView>,
    owner: Seq<char>,
    mint: Seq<char>,
    start: int,
)
    requires
        0 <= start,
    ensures
        held_from(seq![first] + rest, owner, mint, start + 1) == held_from(rest, owner, mint, start),
    decreases rest.len() - start,
{
    if start < rest.len() {
        lemma_held_shift(first, rest, owner, mint, start + 1);
    }
}

proof fn lemma_holder_shift(first: BalanceView, rest: Seq<BalanceView>, mint: Seq<char>, start: int)
    requires
        0 <= start,
    ensures
        holder_from(seq![first] + rest, mint, start + 1) == holder_from(rest, mint, start),
    decreases rest.len() - start,
{
    if start < rest.len() {
        lemma_holder_shift(first, rest, mint, start + 1);
    }
}

proof fn lemma_other_holder_shift(
    first: BalanceView,
    rest: Seq<BalanceView>,
    mint: Seq<char>,
    excluded: Seq<char>,
    start: int,
)
    requires
        0 <= start,
    ensures
        other_holder_from(seq![first] + rest, mint, excluded, start + 1) == other_holder_from(
            rest,
            mint,
            excluded,
            start,
        ),
    decreases rest.len() - start,
{
    if start < rest.len() {
        lemma_other_holder_shift(first, rest, mint, excluded, start + 1);
    }
}

/// Among the snapshots for `mint` alone, the first of an owner for that mint
/// holds what the first among all snapshots holds.
proof fn lemma_held_among_kept(
    balances: Seq<BalanceView>,
    owner: Seq<char>,
    mint: Seq<char>,
    start: int,
)
    requires
        0 <= start,
    ensures
        held_from(of_mint_from(balances, mint, start), owner, mint, 0) == held_from(
            balances,
            owner,
            mint,
            start,
        ),
    decreases balances.len() - start,
{
    if start < balances.len() {
        lemma_held_among_kept(balances, owner, mint, start + 1);
        if balances[start].mint == mint {
            lemma_held_shift(
                balances[start],
                of_mint_from(balances, mint, start + 1),
                owner,
                mint,
                0,
            );
        }
    }
}

proof fn lemma_holder_among_kept(balances: Seq<BalanceView>, mint: Seq<char>, start: int)
    requires
        0 <= start,
    ensures
        holder_from(of_mint_from(balances, mint, start), mint, 0) == holder_from(
            balances,
            mint,
            start,
        ),
    decreases balances.len() - start,
{
    if start < balances.len() {
        lemma_holder_among_kept(balances, mint, start + 1);
    }
}

proof fn lemma_other_holder_among_kept(
    balances: Seq<BalanceView>,
    mint: Seq<char>,
    excluded: Seq<char>,
    start: int,
)
    requires
        0 <= start,
    ensures
        other_holder_from(of_mint_from(balances, mint, start), mint, excluded, 0)
            == other_holder_from(balances, mint, excluded, start),
    decreases balances.len() - start,
{
    if start < balances.len() {
        lemma_other_holder_among_kept(balances, mint, excluded, start + 1);
        if balances[start].mint == mint {
            lemma_other_holder_shift(
                balances[start],
                of_mint_from(balances, mint, start + 1),
                mint,
                excluded,
                0,
            );
        }
    }
}

/// A snapshot gives the same transfer whether or not the transaction still
/// holds the snapshots of other mints.
proof fn lemma_transfer_of_narrowed(
    wallet: Seq<char>,
    mint: Seq<char>,
    transaction: TransactionView,
    after: BalanceView,
)
    ensures
        transfer_of(wallet, mint, narrowed(transaction, mint), after) == transfer_of(
            wallet,
            mint,
            transaction,
            after,
        ),
{
    lemma_held_among_kept(transaction.pre, after.owner, mint, 0);
    lemma_holder_among_kept(transaction.pre, mint, 0);
    lemma_other_holder_among_kept(transaction.post, mint, wallet, 0);
}

/// The transfers that the snapshots `candidates` give within a transaction,
/// in their order.
spec fn yield_of(
    wallet: Seq<char>,
    mint: Seq<char>,
    transaction: TransactionView,
    candidates: Seq<BalanceView>,
) -> Seq<TransferView>
    decreases candidates.len(),
{
    if candidates.len() == 0 {
        Seq::empty()
    } else {
        let earlier = yield_of(wallet, mint, transaction, candidates.drop_last());
        match transfer_of(wallet, mint, transaction, candidates.last()) {
            Some(transfer) => earlier.push(transfer),
            None => earlier,
        }
    }
}

proof fn lemma_yield_of_post(
    wallet: Seq<char>,
    mint: Seq<char>,
    transaction: TransactionView,
    count: nat,
)
    requires
        count <= transaction.post.len(),
    ensures
        transfers_upto(wallet, mint, transaction, count) == yield_of(
            wallet,
            mint,
            transaction,
            transaction.post.take(count as int),
        ),
    decreases count,
{
    if count > 0 {
        lemma_yield_of_post(wallet, mint, transaction, (count - 1) as nat);
        assert(transaction.post.take(count as int).drop_last() == transaction.post.take(
            count - 1,
        ));
    }
}

proof fn lemma_yield_of_narrowed(
    wallet: Seq<char>,
    mint: Seq<char>,
    transaction: TransactionView,
    candidates: Seq<BalanceView>,
)
    ensures
        yield_of(wallet, mint, narrowed(transaction, mint), candidates) == yield_of(
            wallet,
            mint,
            transaction,
            candidates,
        ),
    decreases candidates.len(),
{
    if candidates.len() > 0 {
        lemma_yield_of_narrowed(wallet, mint, transaction, candidates.drop_last());
        lemma_transfer_of_narrowed(wallet, mint, transaction, candidates.last());
    }
}

proof fn lemma_yield_of_sum(
    wallet: Seq<char>,
    mint: Seq<char>,
    transaction: TransactionView,
    first: Seq<BalanceView>,
    second: Seq<BalanceView>,
)
    ensures
        yield_of(wallet, mint, transaction, first + second) == yield_of(
            wallet,
            mint,
            transaction,
            first,
        ) + yield_of(wallet, mint, transaction, second),
    decreases second.len(),
{
    if second.len() > 0 {
        lemma_yield_of_sum(wallet, mint, transaction, first, second.drop_last());
        assert((first + second).drop_last() == first + second.drop_last());
    }
}

proof fn lemma_yield_of_kept(
    wallet: Seq<char>,
    mint: Seq<char>,
    transaction: TransactionView,
    balances: Seq<BalanceView>,
    start: int,
)
    requires
        0 <= start <= balances.len(),
    ensures
        yield_of(wallet, mint, transaction, of_mint_from(balances, mint, start)) == yield_of(
            wallet,
            mint,
            transaction,
            balances.skip(start),
        ),
    decreases balances.len() - start,
{
    if start < balances.len() {
        let next = seq![balances[start]];
        lemma_yield_of_kept(wallet, mint, transaction, balances, start + 1);
        assert(balances.skip(start) == next + balances.skip(start + 1));
        lemma_yield_of_sum(wallet, mint, transaction, next, balances.skip(start + 1));
        lemma_yield_of_sum(
            wallet,
            mint,
            transaction,
            next,
            of_mint_from(balances, mint, start + 1),
        );
        assert(yield_of(wallet, mint, transaction, next.drop_last()) == Seq::<
            TransferView,
        >::empty());
    }
}

/// To drop the snapshots of other mints changes nothing for the inference:
/// the transaction gives the same transfers with them and without them.
pub proof fn law_other_mints_do_not_matter(
    wallet: Seq<char>,
    mint: Seq<char>,
    transaction: TransactionView,
)
    ensures
        transfers_of(wallet, mint, narrowed(transaction, mint)) == transfers_of(
            wallet,
            mint,
            transaction,
        ),
{
    let kept = narrowed(transaction, mint);
    lemma_yield_of_post(wallet, mint, kept, kept.post.len());
    assert(kept.post.take(kept.post.len() as int) == kept.post);
    lemma_yield_of_narrowed(wallet, mint, transaction, kept.post);
    lemma_yield_of_kept(wallet, mint, transaction, transaction.post, 0);
    lemma_yield_of_post(wallet, mint, transaction, transaction.post.len());
}

/// What is kept for a mint holds only snapshots for that mint.
pub proof fn law_kept_snapshots_are_of_the_mint(balances: Seq<BalanceView>, mint: Seq<char>, i: int)
    requires
        0 <= i < of_mint(balances, mint).len(),
    ensures
        of_mint(balances, mint)[i].mint == mint,
{
    lemma_kept_from(balances, mint, 0, i);
}

proof fn lemma_kept_from(balances: Seq<BalanceView>, mint: Seq<char>, start: int, i: int)
    requires
        0 <= start,
        0 <= i < of_mint_from(balances, mint, start).len(),
    ensures
        of_mint_from(balances, mint, start)[i].mint == mint,
    decreases balances.len() - start,
{
    if start < balances.len() {
        if balances[start].mint == mint {
            if i > 0 {
                lemma_kept_from(balances, mint, start + 1, i - 1);
            }
        } else {
            lemma_kept_from(balances, mint, start + 1, i);
        }
    }
}

} // verus!
