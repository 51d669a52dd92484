use fifo_ledger::amount::Amount;
use fifo_ledger::ledger::{Ledger, LedgerError};
use fifo_ledger::price::{BasicPriceProvider, PriceEntry};
use fifo_ledger::types::{AssetType, Date, Transaction, TransactionType};

fn amt(n: i64, d: u64) -> Amount {
    Amount::new(n, d).unwrap()
}

fn asset(name: &str) -> AssetType {
    AssetType::new(name.to_string())
}

fn day(d: u8) -> Date {
    Date::new(2023, 1, d)
}

fn tx(
    ordinal: u32,
    date: Date,
    tx_type: TransactionType,
    input: (&str, Amount),
    output: (&str, Amount),
) -> Transaction {
    Transaction::new(
        ordinal,
        date,
        tx_type,
        asset(input.0),
        input.1,
        asset(output.0),
        output.1,
        String::new(),
    )
}

fn no_prices() -> BasicPriceProvider {
    BasicPriceProvider::new(Vec::new())
}

#[test]
fn simple_buy_then_sell() {
    // Buy 1000 EUR -> 10 X (cost basis 100) on day 1; sell 10 X -> 1500 EUR
    // (sale price 150) on day 2.
    let txs = vec![
        tx(1, day(1), TransactionType::Buying, ("EUR", amt(1000, 1)), ("X", amt(10, 1))),
        tx(2, day(2), TransactionType::Selling, ("X", amt(10, 1)), ("EUR", amt(1500, 1))),
    ];
    let ledger = Ledger::new(txs, &no_prices()).unwrap();
    let items = ledger.in_order();
    assert_eq!(items.len(), 2);
    // The acquisition lot is fully consumed.
    assert_eq!(items[0].ordinal, 1);
    assert_eq!(items[0].cost_basis(), amt(100, 1));
    assert!(items[0].remaining_amount.is_zero());
    // One disposal fragment with income 1500, expense 1000, profit 500.
    assert_eq!(items[1].ordinal, 2);
    assert_eq!(items[1].input_amount, amt(10, 1));
    assert_eq!(items[1].sale_price, Some(amt(150, 1)));
    assert_eq!(items[1].income(), Some(amt(1500, 1)));
    assert_eq!(items[1].expense(), Some(amt(1000, 1)));
    assert_eq!(items[1].profit(), Some(amt(500, 1)));
    assert!(ledger.shortfalls().is_empty());
}

#[test]
fn partial_consumption_fragments_the_lot() {
    // Buy 100 X for 100 EUR (cb = 1); sell 40 X for 80 EUR (sale price 2).
    let txs = vec![
        tx(1, day(1), TransactionType::Buying, ("EUR", amt(100, 1)), ("X", amt(100, 1))),
        tx(2, day(2), TransactionType::Selling, ("X", amt(40, 1)), ("EUR", amt(80, 1))),
    ];
    let ledger = Ledger::new(txs, &no_prices()).unwrap();
    let items = ledger.in_order();
    assert_eq!(items.len(), 2);
    // The lot is not exhausted: 60 X remain.
    assert_eq!(items[0].remaining_amount, amt(60, 1));
    // The fragment realizes 40 * 2 - 40 * 1 = 40 profit.
    assert_eq!(items[1].input_amount, amt(40, 1));
    assert_eq!(items[1].profit(), Some(amt(40, 1)));
}

#[test]
fn cross_lot_fragmentation_consumes_fifo() {
    // Buy 50 X (cb = 1); buy 50 X (cb = 2); sell 70 X for 140 EUR.
    let txs = vec![
        tx(1, day(1), TransactionType::Buying, ("EUR", amt(50, 1)), ("X", amt(50, 1))),
        tx(2, day(2), TransactionType::Buying, ("EUR", amt(100, 1)), ("X", amt(50, 1))),
        tx(3, day(3), TransactionType::Selling, ("X", amt(70, 1)), ("EUR", amt(140, 1))),
    ];
    let ledger = Ledger::new(txs, &no_prices()).unwrap();
    let items = ledger.in_order();
    assert_eq!(items.len(), 4);
    // The older lot is fully exhausted before the newer one is touched.
    assert!(items[0].remaining_amount.is_zero());
    assert_eq!(items[1].remaining_amount, amt(30, 1));
    // First fragment: 50 X from lot 1, profit 50 * 2 - 50 * 1 = 50.
    assert_eq!(items[2].input_amount, amt(50, 1));
    assert_eq!(items[2].output_amount, amt(100, 1));
    assert_eq!(items[2].cost_basis(), amt(1, 1));
    assert_eq!(items[2].profit(), Some(amt(50, 1)));
    // Second fragment: 20 X from lot 2, profit 20 * 2 - 20 * 2 = 0.
    assert_eq!(items[3].input_amount, amt(20, 1));
    assert_eq!(items[3].output_amount, amt(40, 1));
    assert_eq!(items[3].cost_basis(), amt(2, 1));
    assert_eq!(items[3].profit(), Some(Amount::zero()));
}

#[test]
fn insufficient_inventory_is_a_warning_not_an_error() {
    // Sell 10 X when only 5 X were ever acquired: the shortfall of 5 is
    // recorded and processing continues with the 5 actually disposed.
    let txs = vec![
        tx(1, day(1), TransactionType::Buying, ("EUR", amt(5, 1)), ("X", amt(5, 1))),
        tx(2, day(2), TransactionType::Selling, ("X", amt(10, 1)), ("EUR", amt(20, 1))),
    ];
    let ledger = Ledger::new(txs, &no_prices()).unwrap();
    let shortfalls = ledger.shortfalls();
    assert_eq!(shortfalls.len(), 1);
    assert_eq!(shortfalls[0].ordinal, 2);
    assert_eq!(shortfalls[0].amount, amt(5, 1));
    let items = ledger.in_order();
    assert_eq!(items.len(), 2);
    // Only the 5 actually held were disposed, at sale price 2.
    assert_eq!(items[1].input_amount, amt(5, 1));
    assert_eq!(items[1].income(), Some(amt(10, 1)));
    assert_eq!(items[1].expense(), Some(amt(5, 1)));
    assert_eq!(items[1].profit(), Some(amt(5, 1)));
}

#[test]
fn cost_basis_chains_through_two_swaps() {
    // Buy A at cb 10; swap A -> B at rate r1 = 10/20; swap B -> C at rate
    // r2 = 20/5.  C's basis must be 10 * (10/20) * (20/5) = 20.
    let txs = vec![
        tx(1, day(1), TransactionType::Buying, ("EUR", amt(100, 1)), ("A", amt(10, 1))),
        tx(2, day(2), TransactionType::Swap, ("A", amt(10, 1)), ("B", amt(20, 1))),
        tx(3, day(3), TransactionType::Swap, ("B", amt(20, 1)), ("C", amt(5, 1))),
    ];
    let ledger = Ledger::new(txs, &no_prices()).unwrap();
    let items = ledger.in_order();
    assert_eq!(items.len(), 3);
    assert_eq!(items[0].cost_basis(), amt(10, 1));
    assert_eq!(items[1].cost_basis(), amt(5, 1));
    assert_eq!(items[2].cost_basis(), amt(20, 1));
    // Swap fragments carry no sale price and keep their own FIFO future.
    assert_eq!(items[2].sale_price, None);
    assert_eq!(items[2].remaining_amount, amt(5, 1));
    // Provenance: acquisition date flows through the chain.
    assert_eq!(items[2].acquisition_date, day(1));
    assert_eq!(items[2].parent_tx, Some(3));
}

#[test]
fn interest_creates_zero_cost_lot_from_price() {
    let provider = BasicPriceProvider::new(vec![PriceEntry {
        asset: asset("X"),
        date: day(5),
        price: amt(2, 1),
    }]);
    let txs = vec![
        tx(1, day(5), TransactionType::Interest, ("EUR", amt(200, 1)), ("X", amt(100, 1))),
    ];
    let ledger = Ledger::new(txs, &provider).unwrap();
    let items = ledger.in_order();
    assert_eq!(items.len(), 1);
    assert!(items[0].is_zero_cost);
    assert!(items[0].input_amount.is_zero());
    assert_eq!(items[0].cost_basis(), amt(2, 1));
    assert_eq!(items[0].parent_tx, None);
    assert_eq!(items[0].remaining_amount, amt(100, 1));
}

#[test]
fn zero_cost_flag_propagates_to_fragments() {
    let provider = BasicPriceProvider::new(vec![PriceEntry {
        asset: asset("X"),
        date: day(1),
        price: amt(2, 1),
    }]);
    let txs = vec![
        tx(1, day(1), TransactionType::Airdrop, ("EUR", amt(0, 1)), ("X", amt(10, 1))),
        tx(2, day(2), TransactionType::Selling, ("X", amt(4, 1)), ("EUR", amt(12, 1))),
    ];
    let ledger = Ledger::new(txs, &provider).unwrap();
    let items = ledger.in_order();
    assert_eq!(items.len(), 2);
    assert!(items[0].is_zero_cost);
    assert!(items[1].is_zero_cost);
    assert_eq!(items[1].cost_basis(), amt(2, 1));
}

#[test]
fn missing_price_aborts_construction() {
    let txs = vec![
        tx(1, day(5), TransactionType::Interest, ("EUR", amt(1, 1)), ("X", amt(100, 1))),
    ];
    let r = Ledger::new(txs, &no_prices());
    assert_eq!(r.unwrap_err(), LedgerError::MissingPrice { ordinal: 1 });
}

#[test]
fn missing_cost_basis_aborts_construction() {
    // A buy that produces nothing cannot be priced.
    let txs = vec![
        tx(1, day(1), TransactionType::Buying, ("EUR", amt(100, 1)), ("X", Amount::zero())),
    ];
    let r = Ledger::new(txs, &no_prices());
    assert_eq!(r.unwrap_err(), LedgerError::MissingCostBasis { ordinal: 1 });
}

#[test]
fn disposal_of_unknown_asset_aborts_construction() {
    let txs = vec![
        tx(1, day(1), TransactionType::Selling, ("X", amt(10, 1)), ("EUR", amt(20, 1))),
    ];
    let r = Ledger::new(txs, &no_prices());
    assert_eq!(r.unwrap_err(), LedgerError::AssetNotFound { ordinal: 1 });
}

#[test]
fn same_asset_transfer_realizes_the_loss() {
    // Move 2 X between wallets, 1.5 X arrive: the lost 0.5 X is disposed
    // for zero proceeds, realizing a loss of 0.5 * cb.
    let txs = vec![
        tx(1, day(1), TransactionType::Buying, ("EUR", amt(10, 1)), ("X", amt(10, 1))),
        tx(2, day(2), TransactionType::Transfer, ("X", amt(2, 1)), ("X", amt(3, 2))),
    ];
    let ledger = Ledger::new(txs, &no_prices()).unwrap();
    let items = ledger.in_order();
    assert_eq!(items.len(), 2);
    assert_eq!(items[0].remaining_amount, amt(19, 2));
    assert_eq!(items[1].input_amount, amt(1, 2));
    assert_eq!(items[1].sale_price, Some(Amount::zero()));
    assert_eq!(items[1].income(), Some(Amount::zero()));
    assert_eq!(items[1].expense(), Some(amt(1, 2)));
    assert_eq!(items[1].profit(), Some(amt(-1, 2)));
}

#[test]
fn cross_asset_bridge_is_an_ordinary_swap() {
    let txs = vec![
        tx(1, day(1), TransactionType::Buying, ("EUR", amt(10, 1)), ("X", amt(10, 1))),
        tx(2, day(2), TransactionType::Bridge, ("X", amt(4, 1)), ("WX", amt(4, 1))),
    ];
    let ledger = Ledger::new(txs, &no_prices()).unwrap();
    let items = ledger.in_order();
    assert_eq!(items.len(), 2);
    assert_eq!(items[0].remaining_amount, amt(6, 1));
    assert_eq!(items[1].output_amount, amt(4, 1));
    assert_eq!(items[1].cost_basis(), amt(1, 1));
    assert_eq!(items[1].sale_price, None);
}

#[test]
fn later_disposal_skips_exhausted_lots() {
    // A second sale must continue from the remainder of the lot the first
    // sale partially consumed, having exhausted everything before it.
    let txs = vec![
        tx(1, day(1), TransactionType::Buying, ("EUR", amt(30, 1)), ("X", amt(30, 1))),
        tx(2, day(2), TransactionType::Buying, ("EUR", amt(40, 1)), ("X", amt(20, 1))),
        tx(3, day(3), TransactionType::Selling, ("X", amt(35, 1)), ("EUR", amt(70, 1))),
        tx(4, day(4), TransactionType::Selling, ("X", amt(10, 1)), ("EUR", amt(30, 1))),
    ];
    let ledger = Ledger::new(txs, &no_prices()).unwrap();
    let items = ledger.in_order();
    // Two lots, two fragments from the first sale, one from the second.
    assert_eq!(items.len(), 5);
    assert!(items[0].remaining_amount.is_zero());
    // The first sale took all 30 of lot 1 and 5 of lot 2; the second sale
    // continues from lot 2's remainder: 20 - 5 - 10 = 5 left.
    assert_eq!(items[1].remaining_amount, amt(5, 1));
    let f4: Vec<&fifo_ledger::ledger::InventoryItem> =
        items.iter().filter(|i| i.ordinal == 4).collect();
    assert_eq!(f4.len(), 1);
    assert_eq!(f4[0].input_amount, amt(10, 1));
    assert_eq!(f4[0].cost_basis, amt(2, 1));
    assert!(ledger.shortfalls().is_empty());
}

#[test]
fn swap_fragments_are_consumable_in_turn() {
    // Sell an asset acquired through a swap: the fragment's remaining
    // amount is consumed and its chained basis prices the expense.
    let txs = vec![
        tx(1, day(1), TransactionType::Buying, ("EUR", amt(100, 1)), ("A", amt(10, 1))),
        tx(2, day(2), TransactionType::Swap, ("A", amt(10, 1)), ("B", amt(20, 1))),
        tx(3, day(3), TransactionType::Selling, ("B", amt(20, 1)), ("EUR", amt(160, 1))),
    ];
    let ledger = Ledger::new(txs, &no_prices()).unwrap();
    let items = ledger.in_order();
    assert_eq!(items.len(), 3);
    // The swap fragment (basis 5 per B) is fully consumed by the sale.
    assert!(items[1].remaining_amount.is_zero());
    assert_eq!(items[2].income(), Some(amt(160, 1)));
    assert_eq!(items[2].expense(), Some(amt(100, 1)));
    assert_eq!(items[2].profit(), Some(amt(60, 1)));
    // The sale fragment keeps the swap lot's original acquisition date.
    assert_eq!(items[2].acquisition_date, day(1));
}

#[test]
fn zero_cost_income_is_recognized_once() {
    // The income of an interest lot is recognized at acquisition; selling
    // part of it later adds sale income/expense but no second recognition.
    let provider = BasicPriceProvider::new(vec![PriceEntry {
        asset: asset("X"),
        date: day(1),
        price: amt(2, 1),
    }]);
    let txs = vec![
        tx(1, day(1), TransactionType::Interest, ("EUR", amt(20, 1)), ("X", amt(10, 1))),
        tx(2, day(2), TransactionType::Selling, ("X", amt(4, 1)), ("EUR", amt(12, 1))),
    ];
    let ledger = Ledger::new(txs, &provider).unwrap();
    let report = ledger.yearly_income_loss_report().unwrap();
    assert_eq!(report.len(), 1);
    // 20 recognized at receipt + 12 sale income; expense 4 * 2 = 8.
    assert_eq!(report[0].income, amt(32, 1));
    assert_eq!(report[0].expense, amt(8, 1));
    assert_eq!(report[0].profit, amt(24, 1));
}

#[test]
fn reads_are_idempotent() {
    let txs = vec![
        tx(1, day(1), TransactionType::Buying, ("EUR", amt(100, 1)), ("X", amt(10, 1))),
        tx(2, day(2), TransactionType::Selling, ("X", amt(4, 1)), ("EUR", amt(60, 1))),
    ];
    let ledger = Ledger::new(txs, &no_prices()).unwrap();
    let first: Vec<(u32, Amount)> =
        ledger.in_order().iter().map(|i| (i.ordinal, i.remaining_amount)).collect();
    let second: Vec<(u32, Amount)> =
        ledger.in_order().iter().map(|i| (i.ordinal, i.remaining_amount)).collect();
    assert_eq!(first, second);
    let r1 = ledger.yearly_income_loss_report().unwrap();
    let r2 = ledger.yearly_income_loss_report().unwrap();
    assert_eq!(r1, r2);
}
