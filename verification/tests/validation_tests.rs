use fifo_ledger::amount::Amount;
use fifo_ledger::types::{AssetType, Date, Transaction, TransactionType};
use fifo_ledger::validation::{context_validation, ValidationError};

fn amt(n: i64, d: u64) -> Amount {
    Amount::new(n, d).unwrap()
}

fn asset(name: &str) -> AssetType {
    AssetType::new(name.to_string())
}

fn day(d: u8) -> Date {
    Date::new(2023, 1, d)
}

fn tx(
    ordinal: u32,
    date: Date,
    tx_type: TransactionType,
    input: (&str, Amount),
    output: (&str, Amount),
) -> Transaction {
    Transaction::new(
        ordinal,
        date,
        tx_type,
        asset(input.0),
        input.1,
        asset(output.0),
        output.1,
        String::new(),
    )
}

#[test]
fn valid_sequence_returns_final_balances() {
    let txs = vec![
        tx(1, day(1), TransactionType::Buying, ("EUR", amt(100, 1)), ("X", amt(100, 1))),
        tx(2, day(2), TransactionType::Swap, ("X", amt(40, 1)), ("Y", amt(20, 1))),
        tx(3, day(3), TransactionType::Selling, ("Y", amt(5, 1)), ("EUR", amt(10, 1))),
    ];
    let bals = context_validation(&txs).unwrap();
    assert_eq!(bals.len(), 2);
    assert_eq!(bals[0], (asset("X"), amt(60, 1)));
    assert_eq!(bals[1], (asset("Y"), amt(15, 1)));
}

#[test]
fn non_sequential_ordinals_are_rejected() {
    let txs = vec![
        tx(1, day(1), TransactionType::Buying, ("EUR", amt(1, 1)), ("X", amt(1, 1))),
        tx(3, day(2), TransactionType::Selling, ("X", amt(1, 1)), ("EUR", amt(1, 1))),
    ];
    assert_eq!(
        context_validation(&txs).unwrap_err(),
        ValidationError::OrdinalMismatch { expected: 2, found: 3 }
    );
}

#[test]
fn decreasing_dates_are_rejected() {
    let txs = vec![
        tx(1, day(5), TransactionType::Buying, ("EUR", amt(1, 1)), ("X", amt(1, 1))),
        tx(2, day(4), TransactionType::Selling, ("X", amt(1, 1)), ("EUR", amt(1, 1))),
    ];
    assert_eq!(
        context_validation(&txs).unwrap_err(),
        ValidationError::DateOutOfOrder { ordinal: 2 }
    );
}

#[test]
fn zero_input_amount_is_rejected() {
    let txs = vec![
        tx(1, day(1), TransactionType::Buying, ("EUR", Amount::zero()), ("X", amt(1, 1))),
    ];
    assert_eq!(context_validation(&txs).unwrap_err(), ValidationError::ZeroInput { ordinal: 1 });
}

#[test]
fn unknown_input_asset_is_rejected() {
    let txs = vec![
        tx(1, day(1), TransactionType::Selling, ("X", amt(1, 1)), ("EUR", amt(1, 1))),
    ];
    assert_eq!(
        context_validation(&txs).unwrap_err(),
        ValidationError::UnknownAsset { ordinal: 1 }
    );
}

#[test]
fn negative_balance_is_rejected() {
    let txs = vec![
        tx(1, day(1), TransactionType::Buying, ("EUR", amt(5, 1)), ("X", amt(5, 1))),
        tx(2, day(2), TransactionType::Selling, ("X", amt(10, 1)), ("EUR", amt(1, 1))),
    ];
    assert_eq!(
        context_validation(&txs).unwrap_err(),
        ValidationError::InsufficientBalance { ordinal: 2 }
    );
}

#[test]
fn type_shapes_are_checked() {
    // A swap of an asset for itself is not a swap.
    let txs = vec![
        tx(1, day(1), TransactionType::Buying, ("EUR", amt(5, 1)), ("X", amt(5, 1))),
        tx(2, day(2), TransactionType::Swap, ("X", amt(1, 1)), ("X", amt(1, 1))),
    ];
    assert_eq!(
        context_validation(&txs).unwrap_err(),
        ValidationError::InvalidForType { ordinal: 2 }
    );
    // A buy paid in crypto is not a buy (the balance exists, so the shape
    // check is what rejects it).
    let txs = vec![
        tx(1, day(1), TransactionType::Buying, ("EUR", amt(5, 1)), ("BTC", amt(5, 1))),
        tx(2, day(2), TransactionType::Buying, ("BTC", amt(1, 1)), ("X", amt(5, 1))),
    ];
    assert_eq!(
        context_validation(&txs).unwrap_err(),
        ValidationError::InvalidForType { ordinal: 2 }
    );
    // A sale into crypto is not a sale.
    let txs = vec![
        tx(1, day(1), TransactionType::Buying, ("EUR", amt(5, 1)), ("X", amt(5, 1))),
        tx(2, day(2), TransactionType::Selling, ("X", amt(1, 1)), ("Y", amt(1, 1))),
    ];
    assert_eq!(
        context_validation(&txs).unwrap_err(),
        ValidationError::InvalidForType { ordinal: 2 }
    );
}

#[test]
fn fiat_flows_are_not_tracked_as_balances() {
    let txs = vec![
        tx(1, day(1), TransactionType::Buying, ("EUR", amt(100, 1)), ("X", amt(10, 1))),
    ];
    let bals = context_validation(&txs).unwrap();
    // Only the crypto output appears; EUR is never a balance.
    assert_eq!(bals.len(), 1);
    assert_eq!(bals[0].0, asset("X"));
}
