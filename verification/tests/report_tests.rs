use fifo_ledger::amount::Amount;
use fifo_ledger::ledger::Ledger;
use fifo_ledger::price::{BasicPriceProvider, PriceEntry};
use fifo_ledger::types::{AssetType, Date, Transaction, TransactionType};

fn amt(n: i64, d: u64) -> Amount {
    Amount::new(n, d).unwrap()
}

fn asset(name: &str) -> AssetType {
    AssetType::new(name.to_string())
}

fn tx(
    ordinal: u32,
    date: Date,
    tx_type: TransactionType,
    input: (&str, Amount),
    output: (&str, Amount),
) -> Transaction {
    Transaction::new(
        ordinal,
        date,
        tx_type,
        asset(input.0),
        input.1,
        asset(output.0),
        output.1,
        String::new(),
    )
}

#[test]
fn sale_income_and_expense_are_bucketed_by_year() {
    let txs = vec![
        tx(
            1,
            Date::new(2022, 3, 1),
            TransactionType::Buying,
            ("EUR", amt(1000, 1)),
            ("X", amt(10, 1)),
        ),
        tx(
            2,
            Date::new(2023, 4, 2),
            TransactionType::Selling,
            ("X", amt(10, 1)),
            ("EUR", amt(1500, 1)),
        ),
    ];
    let ledger = Ledger::new(txs, &BasicPriceProvider::new(Vec::new())).unwrap();
    let report = ledger.yearly_income_loss_report().unwrap();
    assert_eq!(report.len(), 2);
    // Years come out ascending; the buy year has no realized figures.
    assert_eq!(report[0].year, 2022);
    assert!(report[0].income.is_zero());
    assert!(report[0].expense.is_zero());
    assert!(report[0].profit.is_zero());
    assert_eq!(report[1].year, 2023);
    assert_eq!(report[1].income, amt(1500, 1));
    assert_eq!(report[1].expense, amt(1000, 1));
    assert_eq!(report[1].profit, amt(500, 1));
}

#[test]
fn interest_contributes_pure_income_in_its_year() {
    // Interest of 100 X at price 2 contributes exactly 200 income and
    // profit, with zero expense, in the acquisition year.
    let date = Date::new(2023, 6, 15);
    let provider = BasicPriceProvider::new(vec![PriceEntry {
        asset: asset("X"),
        date,
        price: amt(2, 1),
    }]);
    let txs = vec![
        tx(1, date, TransactionType::Interest, ("EUR", amt(200, 1)), ("X", amt(100, 1))),
    ];
    let ledger = Ledger::new(txs, &provider).unwrap();
    let report = ledger.yearly_income_loss_report().unwrap();
    assert_eq!(report.len(), 1);
    assert_eq!(report[0].year, 2023);
    assert_eq!(report[0].income, amt(200, 1));
    assert!(report[0].expense.is_zero());
    assert_eq!(report[0].profit, amt(200, 1));
}

#[test]
fn losses_show_up_as_negative_profit() {
    let txs = vec![
        tx(
            1,
            Date::new(2023, 1, 1),
            TransactionType::Buying,
            ("EUR", amt(100, 1)),
            ("X", amt(10, 1)),
        ),
        tx(
            2,
            Date::new(2023, 2, 1),
            TransactionType::Selling,
            ("X", amt(10, 1)),
            ("EUR", amt(60, 1)),
        ),
    ];
    let ledger = Ledger::new(txs, &BasicPriceProvider::new(Vec::new())).unwrap();
    let report = ledger.yearly_income_loss_report().unwrap();
    assert_eq!(report.len(), 1);
    assert_eq!(report[0].income, amt(60, 1));
    assert_eq!(report[0].expense, amt(100, 1));
    assert_eq!(report[0].profit, amt(-40, 1));
}

#[test]
fn years_are_sorted_even_for_unsorted_dates() {
    // Dates of valid inputs are monotone, but the report sorts regardless.
    let txs = vec![
        tx(
            1,
            Date::new(2024, 1, 1),
            TransactionType::Buying,
            ("EUR", amt(10, 1)),
            ("X", amt(10, 1)),
        ),
        tx(
            2,
            Date::new(2022, 1, 1),
            TransactionType::Buying,
            ("EUR", amt(10, 1)),
            ("Y", amt(10, 1)),
        ),
    ];
    let ledger = Ledger::new(txs, &BasicPriceProvider::new(Vec::new())).unwrap();
    let report = ledger.yearly_income_loss_report().unwrap();
    assert_eq!(report.len(), 2);
    assert_eq!(report[0].year, 2022);
    assert_eq!(report[1].year, 2024);
}
