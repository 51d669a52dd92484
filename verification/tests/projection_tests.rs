use fifo_ledger::amount::Amount;
use fifo_ledger::ledger::Ledger;
use fifo_ledger::price::BasicPriceProvider;
use fifo_ledger::types::{AssetType, Date, Transaction, TransactionType};

fn amt(n: i64, d: u64) -> Amount {
    Amount::new(n, d).unwrap()
}

fn asset(name: &str) -> AssetType {
    AssetType::new(name.to_string())
}

fn day(d: u8) -> Date {
    Date::new(2023, 1, d)
}

fn tx(
    ordinal: u32,
    date: Date,
    tx_type: TransactionType,
    input: (&str, Amount),
    output: (&str, Amount),
) -> Transaction {
    Transaction::new(
        ordinal,
        date,
        tx_type,
        asset(input.0),
        input.1,
        asset(output.0),
        output.1,
        String::new(),
    )
}

#[test]
fn lines_join_items_to_their_transactions() {
    let txs = vec![
        tx(1, day(1), TransactionType::Buying, ("EUR", amt(1000, 1)), ("X", amt(10, 1))),
        tx(2, day(2), TransactionType::Selling, ("X", amt(10, 1)), ("EUR", amt(1500, 1))),
    ];
    let ledger = Ledger::new(txs, &BasicPriceProvider::new(Vec::new())).unwrap();
    let rows = ledger.csv_line_iter();
    assert_eq!(rows.len(), 2);

    assert_eq!(rows[0].ordinal, 1);
    assert_eq!(rows[0].transaction_date, day(1));
    assert_eq!(rows[0].acquisition_date, day(1));
    assert_eq!(rows[0].action, TransactionType::Buying);
    assert_eq!(rows[0].input_type, asset("EUR"));
    assert_eq!(rows[0].input_amount, amt(1000, 1));
    assert_eq!(rows[0].output_type, asset("X"));
    assert_eq!(rows[0].output_amount, amt(10, 1));
    assert_eq!(rows[0].income, None);
    assert_eq!(rows[0].expense, None);
    assert_eq!(rows[0].profit, None);

    assert_eq!(rows[1].ordinal, 2);
    assert_eq!(rows[1].action, TransactionType::Selling);
    assert_eq!(rows[1].acquisition_date, day(1));
    assert_eq!(rows[1].input_amount, amt(10, 1));
    assert_eq!(rows[1].output_amount, amt(1500, 1));
    assert_eq!(rows[1].income, Some(amt(1500, 1)));
    assert_eq!(rows[1].expense, Some(amt(1000, 1)));
    assert_eq!(rows[1].profit, Some(amt(500, 1)));
}

#[test]
fn output_line_uses_transaction_level_labels() {
    let txs = vec![
        tx(1, day(1), TransactionType::Buying, ("EUR", amt(100, 1)), ("X", amt(100, 1))),
        tx(2, day(2), TransactionType::Selling, ("X", amt(40, 1)), ("EUR", amt(80, 1))),
    ];
    let ledger = Ledger::new(txs, &BasicPriceProvider::new(Vec::new())).unwrap();
    let items = ledger.in_order();
    let t = Transaction::new(
        2,
        day(2),
        TransactionType::Selling,
        asset("X"),
        amt(40, 1),
        asset("EUR"),
        amt(80, 1),
        String::new(),
    );
    let row = items[1].output_line(&t);
    assert_eq!(row.ordinal, 2);
    assert_eq!(row.action, TransactionType::Selling);
    // Fragment-level amounts, transaction-level assets.
    assert_eq!(row.input_amount, amt(40, 1));
    assert_eq!(row.input_type, asset("X"));
    assert_eq!(row.profit, Some(amt(40, 1)));
}

#[test]
fn lines_are_read_idempotently() {
    let txs = vec![
        tx(1, day(1), TransactionType::Buying, ("EUR", amt(10, 1)), ("X", amt(10, 1))),
    ];
    let ledger = Ledger::new(txs, &BasicPriceProvider::new(Vec::new())).unwrap();
    let a = ledger.csv_line_iter();
    let b = ledger.csv_line_iter();
    assert_eq!(a.len(), b.len());
    assert_eq!(a[0].ordinal, b[0].ordinal);
    assert_eq!(a[0].output_amount, b[0].output_amount);
}
