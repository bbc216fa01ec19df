use usdc_indexer::inference::infer;
use usdc_indexer::models::{TokenBalance, TransactionRecord, TransferDirection, USDCTransfer};

const WALLET: &str = "7xKXtg2CW87d97TXJSDpbD5jBkheTqA83TZRuJosgAsU";
const OTHER: &str = "9WzDXwBbmkg8ZTbNMqUxvQRAyrZzDsGYdLVL9zYtAWWM";
const THIRD: &str = "3h1zGmCwsRJnVk5BuRNMLsPaQu1y2aqXqXDWYCgrp5UG";
const MINT: &str = "EPjFWdd5AufqSSqeM2qN1xzybapC8G4wEGGkZwyTDt1v";
const OTHER_MINT: &str = "Es9vMFrzaCERmJfrF4H2FYD4KCoNkY11McCe8BenwNYB";

fn balance(owner: &str, mint: &str, amount: Option<u64>) -> TokenBalance {
    TokenBalance { owner: owner.to_string(), mint: mint.to_string(), amount }
}

fn transaction(pre: Vec<TokenBalance>, post: Vec<TokenBalance>) -> TransactionRecord {
    TransactionRecord { signature: "S1".to_string(), timestamp: 1_700_000_000, pre, post }
}

fn transfer(from: &str, to: &str, amount: u64, direction: TransferDirection) -> USDCTransfer {
    USDCTransfer {
        signature: "S1".to_string(),
        timestamp: 1_700_000_000,
        from: from.to_string(),
        to: to.to_string(),
        amount,
        direction,
    }
}

fn run(pre: Vec<TokenBalance>, post: Vec<TokenBalance>) -> Vec<USDCTransfer> {
    infer(&WALLET.to_string(), &MINT.to_string(), &transaction(pre, post))
}

#[test]
fn wallet_gaining_fifty_gives_one_incoming_record() {
    let records = run(
        vec![balance(WALLET, MINT, Some(100))],
        vec![balance(WALLET, MINT, Some(150))],
    );
    assert_eq!(records, vec![transfer(WALLET, WALLET, 50, TransferDirection::Incoming)]);
}

#[test]
fn incoming_sender_is_first_holder_before() {
    let records = run(
        vec![balance(OTHER, MINT, Some(70)), balance(WALLET, MINT, Some(100))],
        vec![balance(WALLET, MINT, Some(150))],
    );
    assert_eq!(records, vec![transfer(OTHER, WALLET, 50, TransferDirection::Incoming)]);
}

#[test]
fn incoming_without_earlier_snapshot_has_unknown_sender() {
    let records = run(vec![], vec![balance(WALLET, MINT, Some(50))]);
    assert_eq!(records, vec![transfer("unknown", WALLET, 50, TransferDirection::Incoming)]);
}

#[test]
fn wallet_paying_fifty_gives_outgoing_record_to_counterparty() {
    let records = run(
        vec![balance(WALLET, MINT, Some(150)), balance(OTHER, MINT, Some(0))],
        vec![balance(WALLET, MINT, Some(100)), balance(OTHER, MINT, Some(50))],
    );
    assert_eq!(
        records,
        vec![
            transfer(WALLET, WALLET, 50, TransferDirection::Incoming),
            transfer(WALLET, OTHER, 50, TransferDirection::Outgoing),
        ]
    );
    assert!(records.contains(&transfer(WALLET, OTHER, 50, TransferDirection::Outgoing)));
}

#[test]
fn counterparty_new_to_the_mint_counts_from_zero() {
    let records = run(
        vec![balance(WALLET, MINT, Some(150))],
        vec![balance(WALLET, MINT, Some(100)), balance(OTHER, MINT, Some(50))],
    );
    assert_eq!(records.len(), 2);
    assert_eq!(records[1], transfer(WALLET, OTHER, 50, TransferDirection::Outgoing));
}

#[test]
fn unchanged_balances_give_no_record() {
    let records = run(
        vec![balance(WALLET, MINT, Some(100)), balance(OTHER, MINT, Some(7))],
        vec![balance(WALLET, MINT, Some(100)), balance(OTHER, MINT, Some(7))],
    );
    assert_eq!(records, vec![]);
}

#[test]
fn absent_amount_counts_as_zero() {
    let unchanged = run(vec![balance(WALLET, MINT, None)], vec![balance(WALLET, MINT, Some(0))]);
    assert_eq!(unchanged, vec![]);
    let emptied = run(vec![balance(WALLET, MINT, Some(9))], vec![balance(WALLET, MINT, None)]);
    assert_eq!(emptied, vec![transfer(WALLET, WALLET, 9, TransferDirection::Incoming)]);
}

#[test]
fn snapshots_of_other_mints_are_ignored() {
    let records = run(
        vec![balance(OTHER, OTHER_MINT, Some(1)), balance(WALLET, OTHER_MINT, Some(5))],
        vec![balance(WALLET, OTHER_MINT, Some(500)), balance(OTHER, OTHER_MINT, Some(2))],
    );
    assert_eq!(records, vec![]);
    let mixed = run(
        vec![balance(OTHER, OTHER_MINT, Some(1)), balance(WALLET, MINT, Some(5))],
        vec![balance(OTHER, OTHER_MINT, Some(3)), balance(WALLET, MINT, Some(8))],
    );
    assert_eq!(mixed, vec![transfer(WALLET, WALLET, 3, TransferDirection::Incoming)]);
}

#[test]
fn same_owner_under_another_mint_is_no_earlier_balance() {
    let records = run(
        vec![balance(WALLET, OTHER_MINT, Some(40))],
        vec![balance(WALLET, MINT, Some(40))],
    );
    assert_eq!(records, vec![transfer("unknown", WALLET, 40, TransferDirection::Incoming)]);
}

#[test]
fn outgoing_without_other_holder_has_unknown_recipient() {
    let wallet = OTHER.to_string();
    let tx = transaction(
        vec![balance(WALLET, MINT, Some(10))],
        vec![balance(WALLET, MINT, Some(4))],
    );
    let records = infer(&wallet, &MINT.to_string(), &tx);
    assert_eq!(records, vec![transfer(OTHER, WALLET, 6, TransferDirection::Outgoing)]);
    let alone = infer(
        &WALLET.to_string(),
        &MINT.to_string(),
        &transaction(vec![], vec![balance(WALLET, MINT, Some(4))]),
    );
    assert_eq!(alone, vec![transfer("unknown", WALLET, 4, TransferDirection::Incoming)]);
}

#[test]
fn recipient_is_first_holder_after_that_is_not_the_wallet() {
    let records = run(
        vec![
            balance(WALLET, MINT, Some(100)),
            balance(OTHER, MINT, Some(0)),
            balance(THIRD, MINT, Some(0)),
        ],
        vec![
            balance(WALLET, MINT, Some(70)),
            balance(OTHER, MINT, Some(10)),
            balance(THIRD, MINT, Some(20)),
        ],
    );
    assert_eq!(
        records,
        vec![
            transfer(WALLET, WALLET, 30, TransferDirection::Incoming),
            transfer(WALLET, OTHER, 10, TransferDirection::Outgoing),
            transfer(WALLET, OTHER, 20, TransferDirection::Outgoing),
        ]
    );
}

#[test]
fn every_record_has_a_positive_amount_and_names_the_wallet() {
    let records = run(
        vec![
            balance(OTHER, MINT, Some(u64::MAX)),
            balance(WALLET, MINT, Some(0)),
            balance(THIRD, MINT, Some(5)),
        ],
        vec![
            balance(OTHER, MINT, Some(0)),
            balance(WALLET, MINT, Some(u64::MAX)),
            balance(THIRD, MINT, Some(5)),
        ],
    );
    assert_eq!(records.len(), 2);
    for record in &records {
        assert!(record.amount > 0);
        assert_eq!(record.amount, u64::MAX);
        assert_eq!(record.signature, "S1");
        assert_eq!(record.timestamp, 1_700_000_000);
        match record.direction {
            TransferDirection::Incoming => assert_eq!(record.to, WALLET),
            TransferDirection::Outgoing => assert_eq!(record.from, WALLET),
        }
    }
    assert_eq!(records[0], transfer(WALLET, OTHER, u64::MAX, TransferDirection::Outgoing));
    assert_eq!(records[1], transfer(OTHER, WALLET, u64::MAX, TransferDirection::Incoming));
}

#[test]
fn earlier_balance_is_that_of_the_first_matching_snapshot() {
    let records = run(
        vec![balance(WALLET, MINT, Some(5)), balance(WALLET, MINT, Some(7))],
        vec![balance(WALLET, MINT, Some(5)), balance(WALLET, MINT, Some(7))],
    );
    assert_eq!(records, vec![transfer(WALLET, WALLET, 2, TransferDirection::Incoming)]);
}
