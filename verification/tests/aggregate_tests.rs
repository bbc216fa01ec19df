use usdc_indexer::aggregate::{aggregate, NetAmount, TransferSummary};
use usdc_indexer::models::{TransferDirection, USDCTransfer};

fn moved(amount: u64, direction: TransferDirection) -> USDCTransfer {
    USDCTransfer {
        signature: "S".to_string(),
        timestamp: 10,
        from: "A".to_string(),
        to: "B".to_string(),
        amount,
        direction,
    }
}

#[test]
fn nothing_sums_to_nothing() {
    let summary = aggregate(Vec::new());
    assert_eq!(
        summary,
        TransferSummary {
            records: vec![],
            total_in: 0,
            total_out: 0,
            net: NetAmount { negative: false, magnitude: 0 },
        }
    );
}

#[test]
fn totals_are_the_sums_by_direction() {
    let records = vec![
        moved(50, TransferDirection::Incoming),
        moved(20, TransferDirection::Outgoing),
        moved(5, TransferDirection::Incoming),
    ];
    let summary = aggregate(records.clone());
    assert_eq!(summary.records, records);
    assert_eq!(summary.total_in, 55);
    assert_eq!(summary.total_out, 20);
    assert_eq!(summary.net, NetAmount { negative: false, magnitude: 35 });
}

#[test]
fn net_below_zero_is_marked_negative() {
    let summary = aggregate(vec![
        moved(1, TransferDirection::Incoming),
        moved(4, TransferDirection::Outgoing),
    ]);
    assert_eq!(summary.total_in, 1);
    assert_eq!(summary.total_out, 4);
    assert_eq!(summary.net, NetAmount { negative: true, magnitude: 3 });
}

#[test]
fn equal_totals_give_a_zero_that_is_not_negative() {
    let summary = aggregate(vec![
        moved(9, TransferDirection::Outgoing),
        moved(9, TransferDirection::Incoming),
    ]);
    assert_eq!(summary.net, NetAmount { negative: false, magnitude: 0 });
}

#[test]
fn totals_hold_more_than_sixty_four_bits() {
    let summary = aggregate(vec![
        moved(u64::MAX, TransferDirection::Incoming),
        moved(u64::MAX, TransferDirection::Incoming),
        moved(u64::MAX, TransferDirection::Outgoing),
    ]);
    assert_eq!(summary.total_in, 2 * (u64::MAX as u128));
    assert_eq!(summary.total_out, u64::MAX as u128);
    assert_eq!(summary.net, NetAmount { negative: false, magnitude: u64::MAX as u128 });
}

#[test]
fn net_amount_between_two_totals() {
    assert_eq!(NetAmount::between(7, 3), NetAmount { negative: false, magnitude: 4 });
    assert_eq!(NetAmount::between(3, 7), NetAmount { negative: true, magnitude: 4 });
    assert_eq!(NetAmount::between(0, u128::MAX), NetAmount { negative: true, magnitude: u128::MAX });
}
