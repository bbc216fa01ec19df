use usdc_indexer::aggregate::NetAmount;
use usdc_indexer::models::{TokenBalance, TransferDirection, USDCTransfer};
use usdc_indexer::reconstruction::{
    collect_transfers, reconstruct, transfers_of_entry, LedgerItem,
};
use usdc_indexer::resolver::{FetchedTransaction, TransactionMeta};
use usdc_indexer::scanner::SignatureEntry;
use usdc_indexer::window::TimeWindow;

const W: &str = "7xKXtg2CW87d97TXJSDpbD5jBkheTqA83TZRuJosgAsU";
const C: &str = "9WzDXwBbmkg8ZTbNMqUxvQRAyrZzDsGYdLVL9zYtAWWM";
const T: &str = "EPjFWdd5AufqSSqeM2qN1xzybapC8G4wEGGkZwyTDt1v";

fn balance(owner: &str, amount: u64) -> TokenBalance {
    TokenBalance { owner: owner.to_string(), mint: T.to_string(), amount: Some(amount) }
}

fn moved(pre: Vec<TokenBalance>, post: Vec<TokenBalance>) -> Option<FetchedTransaction> {
    Some(FetchedTransaction {
        meta: Some(TransactionMeta { pre_token_balances: pre, post_token_balances: post }),
    })
}

fn item(signature: &str, time: Option<i64>, tx: Option<FetchedTransaction>) -> LedgerItem {
    LedgerItem {
        entry: SignatureEntry { signature: signature.to_string(), block_time: time },
        transaction: tx,
    }
}

fn record(sig: &str, time: i64, from: &str, to: &str, amount: u64, d: TransferDirection) -> USDCTransfer {
    USDCTransfer {
        signature: sig.to_string(),
        timestamp: time,
        from: from.to_string(),
        to: to.to_string(),
        amount,
        direction: d,
    }
}

fn window() -> TimeWindow {
    TimeWindow { start: 1_000, end: 2_000 }
}

fn collect(ledger: &Vec<LedgerItem>) -> Vec<USDCTransfer> {
    collect_transfers(&W.to_string(), &T.to_string(), &window(), ledger)
}

fn receipt(signature: &str, time: i64) -> LedgerItem {
    item(signature, Some(time), moved(vec![balance(W, 100)], vec![balance(W, 150)]))
}

#[test]
fn receipt_inside_the_window_gives_exactly_one_record() {
    let ledger = vec![receipt("S1", 1_500)];
    assert_eq!(collect(&ledger), vec![record("S1", 1_500, W, W, 50, TransferDirection::Incoming)]);
}

#[test]
fn payment_inside_the_window_names_the_counterparty() {
    let ledger = vec![item(
        "S2",
        Some(1_200),
        moved(vec![balance(W, 150), balance(C, 0)], vec![balance(W, 100), balance(C, 50)]),
    )];
    let records = collect(&ledger);
    assert!(records.contains(&record("S2", 1_200, W, C, 50, TransferDirection::Outgoing)));
    assert_eq!(records.len(), 2);
}

#[test]
fn entry_before_the_window_stops_the_scan() {
    let ledger = vec![receipt("S1", 1_500), receipt("S3", 999), receipt("S4", 1_600)];
    assert_eq!(collect(&ledger), vec![record("S1", 1_500, W, W, 50, TransferDirection::Incoming)]);
    let only_old = vec![receipt("S3", 999), receipt("S4", 1_600)];
    assert_eq!(collect(&only_old), vec![]);
}

#[test]
fn records_keep_the_order_of_the_history() {
    let ledger = vec![receipt("A", 1_900), receipt("B", 1_100), receipt("C", 1_500)];
    let records = collect(&ledger);
    let names: Vec<&str> = records.iter().map(|r| r.signature.as_str()).collect();
    assert_eq!(names, vec!["A", "B", "C"]);
}

#[test]
fn entries_outside_the_window_are_never_reported() {
    let mut ledger = vec![receipt("new", 2_000), item("untimed", None, receipt("x", 0).transaction)];
    ledger.push(receipt("in", 1_999));
    for i in 0..500 {
        ledger.push(receipt("old", 999 - i));
    }
    let w = window();
    let records = collect(&ledger);
    assert_eq!(records, vec![record("in", 1_999, W, W, 50, TransferDirection::Incoming)]);
    for r in &records {
        assert!(w.start <= r.timestamp && r.timestamp < w.end);
    }
}

#[test]
fn missing_metadata_counts_as_if_the_entry_were_absent() {
    let with = vec![
        receipt("A", 1_900),
        item("B", Some(1_800), Some(FetchedTransaction { meta: None })),
        receipt("C", 1_700),
        item("D", Some(1_600), Some(FetchedTransaction { meta: None })),
    ];
    let without = vec![receipt("A", 1_900), receipt("C", 1_700)];
    assert_eq!(collect(&with), collect(&without));
    assert_eq!(collect(&with).len(), 2);
}

#[test]
fn transaction_that_the_ledger_lacks_gives_nothing() {
    let ledger = vec![item("A", Some(1_900), None), receipt("C", 1_700)];
    assert_eq!(collect(&ledger), vec![record("C", 1_700, W, W, 50, TransferDirection::Incoming)]);
}

#[test]
fn transfers_of_one_entry() {
    let entry = SignatureEntry { signature: "S1".to_string(), block_time: Some(42) };
    let fetched = moved(vec![balance(W, 100)], vec![balance(W, 150)]);
    assert_eq!(
        transfers_of_entry(&W.to_string(), &T.to_string(), &entry, &fetched),
        vec![record("S1", 42, W, W, 50, TransferDirection::Incoming)]
    );
    let untimed = SignatureEntry { signature: "S1".to_string(), block_time: None };
    assert_eq!(transfers_of_entry(&W.to_string(), &T.to_string(), &untimed, &fetched), vec![]);
    assert_eq!(transfers_of_entry(&W.to_string(), &T.to_string(), &entry, &None), vec![]);
    let bare = Some(FetchedTransaction { meta: None });
    assert_eq!(transfers_of_entry(&W.to_string(), &T.to_string(), &entry, &bare), vec![]);
}

#[test]
fn reconstruction_sums_what_it_collects() {
    let ledger = vec![
        receipt("A", 1_900),
        item(
            "B",
            Some(1_800),
            moved(vec![balance(W, 150), balance(C, 0)], vec![balance(W, 150), balance(C, 80)]),
        ),
        receipt("old", 10),
    ];
    let summary = reconstruct(&W.to_string(), &T.to_string(), &window(), &ledger);
    assert_eq!(
        summary.records,
        vec![
            record("A", 1_900, W, W, 50, TransferDirection::Incoming),
            record("B", 1_800, W, C, 80, TransferDirection::Outgoing),
        ]
    );
    assert_eq!(summary.total_in, 50);
    assert_eq!(summary.total_out, 80);
    assert_eq!(summary.net, NetAmount { negative: true, magnitude: 30 });
}
