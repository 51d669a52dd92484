use fifo_ledger::amount::Amount;
use fifo_ledger::prepare::TransactionsProvider;
use fifo_ledger::types::{AssetType, Date, Transaction, TransactionType};

fn amt(n: i64, d: u64) -> Amount {
    Amount::new(n, d).unwrap()
}

fn tx_on(ordinal: u32, date: Date, note: &str) -> Transaction {
    Transaction::new(
        ordinal,
        date,
        TransactionType::Buying,
        AssetType::new("EUR".to_string()),
        amt(1, 1),
        AssetType::new("X".to_string()),
        amt(1, 1),
        note.to_string(),
    )
}

#[test]
fn get_sorts_by_date_and_renumbers() {
    let provider = TransactionsProvider::new(vec![
        tx_on(7, Date::new(2023, 5, 1), "c"),
        tx_on(9, Date::new(2022, 1, 3), "a"),
        tx_on(4, Date::new(2022, 12, 24), "b"),
    ]);
    let txs = provider.get();
    assert_eq!(txs.len(), 3);
    assert_eq!(txs[0].ordinal(), 1);
    assert_eq!(txs[1].ordinal(), 2);
    assert_eq!(txs[2].ordinal(), 3);
    assert_eq!(txs[0].note(), "a");
    assert_eq!(txs[1].note(), "b");
    assert_eq!(txs[2].note(), "c");
    assert_eq!(txs[0].date(), Date::new(2022, 1, 3));
    assert_eq!(txs[2].date(), Date::new(2023, 5, 1));
}

#[test]
fn get_is_stable_for_equal_dates() {
    let d = Date::new(2023, 2, 2);
    let provider = TransactionsProvider::new(vec![
        tx_on(1, Date::new(2023, 3, 3), "later"),
        tx_on(2, d, "first"),
        tx_on(3, d, "second"),
    ]);
    let txs = provider.get();
    assert_eq!(txs[0].note(), "first");
    assert_eq!(txs[1].note(), "second");
    assert_eq!(txs[2].note(), "later");
}

#[test]
fn get_of_empty_is_empty() {
    let txs = TransactionsProvider::new(Vec::new()).get();
    assert!(txs.is_empty());
}
