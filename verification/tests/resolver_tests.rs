use usdc_indexer::models::{TokenBalance, TransactionRecord};
use usdc_indexer::resolver::{keep_mint, resolve, FetchedTransaction, Resolution, TransactionMeta};

fn balance(owner: &str, mint: &str, amount: Option<u64>) -> TokenBalance {
    TokenBalance { owner: owner.to_string(), mint: mint.to_string(), amount }
}

#[test]
fn keep_mint_keeps_order_and_drops_the_rest() {
    let all = vec![
        balance("a", "T", Some(1)),
        balance("b", "X", Some(2)),
        balance("c", "T", None),
        balance("a", "T", Some(4)),
        balance("d", "t", Some(5)),
    ];
    assert_eq!(
        keep_mint(&all, &"T".to_string()),
        vec![balance("a", "T", Some(1)), balance("c", "T", None), balance("a", "T", Some(4))]
    );
    assert_eq!(keep_mint(&all, &"Z".to_string()), vec![]);
    assert_eq!(keep_mint(&Vec::new(), &"T".to_string()), vec![]);
}

#[test]
fn lookup_without_transaction_is_not_found() {
    let resolution = resolve(&"S1".to_string(), 5, &None, &"T".to_string());
    assert_eq!(resolution, Resolution::NotFound);
}

#[test]
fn lookup_without_metadata_is_reported() {
    let fetched = Some(FetchedTransaction { meta: None });
    let resolution = resolve(&"S1".to_string(), 5, &fetched, &"T".to_string());
    assert_eq!(resolution, Resolution::NoMetadata);
}

#[test]
fn lookup_with_metadata_gives_the_snapshots_of_the_mint() {
    let fetched = Some(FetchedTransaction {
        meta: Some(TransactionMeta {
            pre_token_balances: vec![balance("a", "X", Some(9)), balance("a", "T", Some(1))],
            post_token_balances: vec![
                balance("a", "T", Some(3)),
                balance("a", "X", Some(7)),
                balance("b", "T", Some(2)),
            ],
        }),
    });
    let resolution = resolve(&"S1".to_string(), 77, &fetched, &"T".to_string());
    assert_eq!(
        resolution,
        Resolution::Resolved(TransactionRecord {
            signature: "S1".to_string(),
            timestamp: 77,
            pre: vec![balance("a", "T", Some(1))],
            post: vec![balance("a", "T", Some(3)), balance("b", "T", Some(2))],
        })
    );
}
