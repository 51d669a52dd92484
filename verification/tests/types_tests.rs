use fifo_ledger::amount::Amount;
use fifo_ledger::price::{BasicPriceProvider, MissingPricesCheck, PriceEntry, PriceProvider};
use fifo_ledger::types::{AssetType, Date, Transaction, TransactionType};

fn amt(n: i64, d: u64) -> Amount {
    Amount::new(n, d).unwrap()
}

fn asset(name: &str) -> AssetType {
    AssetType::new(name.to_string())
}

#[test]
fn fiat_crypto_and_stablecoin_classification() {
    assert!(asset("EUR").is_fiat());
    assert!(asset("USD").is_fiat());
    assert!(!asset("BTC").is_fiat());
    assert!(asset("BTC").is_crypto());
    assert!(!asset("EUR").is_crypto());
    assert!(!asset("").is_crypto());
    assert!(asset("USDC").is_stablecoin());
    assert!(asset("USDT").is_stablecoin());
    assert!(!asset("BTC").is_stablecoin());
    assert_eq!(AssetType::EUR(), asset("EUR"));
    assert_eq!(asset("ASTR").inner(), "ASTR".to_string());
}

#[test]
fn zero_cost_transaction_types() {
    assert!(TransactionType::Interest.is_zero_cost());
    assert!(TransactionType::Airdrop.is_zero_cost());
    assert!(!TransactionType::Buying.is_zero_cost());
    assert!(!TransactionType::Swap.is_zero_cost());
    assert!(!TransactionType::Selling.is_zero_cost());
}

#[test]
fn transaction_cost_basis_and_sale_price() {
    let t = Transaction::new(
        1,
        Date::new(2023, 1, 1),
        TransactionType::Buying,
        asset("EUR"),
        amt(750, 1),
        asset("BTC"),
        amt(3, 2),
        String::new(),
    );
    // 750 EUR for 1.5 BTC: cost basis 500 per unit.
    assert_eq!(t.cost_basis(), Some(amt(500, 1)));
    // Output is not fiat, so no sale price.
    assert_eq!(t.sale_price(), None);

    let s = Transaction::new(
        2,
        Date::new(2023, 1, 2),
        TransactionType::Selling,
        asset("BTC"),
        amt(3, 2),
        asset("EUR"),
        amt(750, 1),
        String::new(),
    );
    assert_eq!(s.sale_price(), Some(amt(500, 1)));
    // For a sale the derived cost basis is input / output = 1.5 / 750.
    assert_eq!(s.cost_basis(), Some(amt(1, 500)));

    let z = Transaction::new(
        3,
        Date::new(2023, 1, 3),
        TransactionType::Selling,
        asset("BTC"),
        amt(1, 1),
        asset("EUR"),
        Amount::zero(),
        String::new(),
    );
    assert_eq!(z.cost_basis(), None);
    assert_eq!(z.sale_price(), Some(Amount::zero()));
    assert!(!z.is_zero_cost());
}

#[test]
fn transaction_accessors_round_trip() {
    let t = Transaction::new(
        7,
        Date::new(2021, 12, 31),
        TransactionType::Swap,
        asset("A"),
        amt(4, 1),
        asset("B"),
        amt(8, 1),
        "note".to_string(),
    );
    assert_eq!(t.ordinal(), 7);
    assert_eq!(t.date(), Date::new(2021, 12, 31));
    assert_eq!(t.tx_type(), TransactionType::Swap);
    assert_eq!(t.input(), (asset("A"), amt(4, 1)));
    assert_eq!(t.output(), (asset("B"), amt(8, 1)));
    assert_eq!(t.note(), "note");
    let t2 = t.new_with_ordinal(9);
    assert_eq!(t2.ordinal(), 9);
}

#[test]
fn price_table_lookup_and_missing_prices() {
    let date = Date::new(2023, 5, 1);
    let provider = BasicPriceProvider::new(vec![PriceEntry {
        asset: asset("X"),
        date,
        price: amt(7, 2),
    }]);
    assert_eq!(provider.get_price(&asset("X"), date), Some(amt(7, 2)));
    assert_eq!(provider.get_price(&asset("Y"), date), None);
    assert!(provider.contains_price(&asset("X"), date));
    assert!(!provider.contains_price(&asset("X"), Date::new(2023, 5, 2)));

    let txs = vec![
        Transaction::new(
            1,
            date,
            TransactionType::Interest,
            asset("EUR"),
            amt(1, 1),
            asset("X"),
            amt(10, 1),
            String::new(),
        ),
        Transaction::new(
            2,
            date,
            TransactionType::Interest,
            asset("EUR"),
            amt(1, 1),
            asset("Y"),
            amt(10, 1),
            String::new(),
        ),
        Transaction::new(
            3,
            date,
            TransactionType::Buying,
            asset("EUR"),
            amt(1, 1),
            asset("Z"),
            amt(10, 1),
            String::new(),
        ),
    ];
    let missing = provider.missing_prices(&txs);
    assert_eq!(missing.len(), 1);
    assert_eq!(missing[0], (asset("Y"), date));
}

#[test]
fn date_ordering_is_lexicographic() {
    let a = Date::new(2022, 12, 31);
    let b = Date::new(2023, 1, 1);
    assert!(a.le(&b));
    assert!(!b.le(&a));
    assert!(a.le(&a));
}
