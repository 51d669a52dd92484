//! Line projection: flat, row-shaped records for external rendering.
//!
//! Each inventory item is joined back to its originating transaction (by
//! ordinal) to recover the transaction-level action and asset labels, and
//! paired with the item-level amounts and derived income/expense/profit
//! figures.  Rendering the rows (dates, decimals, CSV) is the caller's
//! concern: the records hold plain values only.

use vstd::prelude::*;
use crate::amount::Amount;
use crate::ledger::{InventoryItem, Ledger};
use crate::types::{AssetType, Date, Transaction, TransactionType};

verus! {

/// One output row: the fields of an inventory item joined with its
/// originating transaction, ready for rendering.
#[derive(Debug)]
pub struct LineRecord {
    /// Ordinal of the originating transaction.
    pub ordinal: u32,
    /// Date of the transaction.
    pub transaction_date: Date,
    /// Date the underlying value was originally acquired.
    pub acquisition_date: Date,
    /// Action taken by the transaction (its type).
    pub action: TransactionType,
    /// Input asset of the transaction.
    pub input_type: AssetType,
    /// Input amount attributed to this row's item.
    pub input_amount: Amount,
    /// Output asset of the transaction.
    pub output_type: AssetType,
    /// Output amount attributed to this row's item.
    pub output_amount: Amount,
    /// Income, when the item disposed into fiat.
    pub income: Option<Amount>,
    /// Expense, when the item disposed into fiat.
    pub expense: Option<Amount>,
    /// Profit, when the item disposed into fiat.
    pub profit: Option<Amount>,
}

impl Clone for LineRecord {
    fn clone(&self) -> (r: Self)
        ensures
            r == *self,
    {
        LineRecord {
            ordinal: self.ordinal,
            transaction_date: self.transaction_date,
            acquisition_date: self.acquisition_date,
            action: self.action,
            input_type: self.input_type.clone(),
            input_amount: self.input_amount,
            output_type: self.output_type.clone(),
            output_amount: self.output_amount,
            income: self.income,
            expense: self.expense,
            profit: self.profit,
        }
    }
}

/// The row produced for item `it` of transaction `tx`.
pub open spec fn spec_output_line(it: InventoryItem, tx: Transaction) -> LineRecord {
    LineRecord {
        ordinal: it.ordinal,
        transaction_date: it.date,
        acquisition_date: it.acquisition_date,
        action: tx.tx_type,
        input_type: tx.input_type,
        input_amount: it.input_amount,
        output_type: tx.output_type,
        output_amount: it.output_amount,
        income: it.spec_income(),
        expense: it.spec_expense(),
        profit: it.spec_profit(),
    }
}

impl InventoryItem {
    /// Produce the output row for this item.
    ///
    /// The transaction must be the one the item originated from (same
    /// ordinal).
    pub fn output_line(&self, tx: &Transaction) -> (r: LineRecord)
        requires
            self.wf(),
            self.ordinal == tx.ordinal,
        ensures
            r == spec_output_line(*self, *tx),
    {
        LineRecord {
            ordinal: self.ordinal,
            transaction_date: self.date,
            acquisition_date: self.acquisition_date,
            action: tx.tx_type,
            input_type: tx.input_type.clone(),
            input_amount: self.input_amount,
            output_type: tx.output_type.clone(),
            output_amount: self.output_amount,
            income: self.income(),
            expense: self.expense(),
            profit: self.profit(),
        }
    }
}

impl Ledger {
    /// Every item's ordinal resolves to its originating transaction by
    /// 1-based index.  Holds for any ledger built from an
    /// ordinal-sequential transaction list.
    pub open spec fn spec_lines_joinable(self) -> bool {
        forall|k: int|
            0 <= k < self.items@.len() ==> {
                let o = (#[trigger] self.items@[k]).ordinal;
                &&& 1 <= o <= self.transactions@.len()
                &&& self.transactions@[o - 1].ordinal == o
            }
    }

    /// The output rows, one per inventory item, in item order.
    ///
    /// Each row joins an item with its originating transaction.  The result
    /// is a pure function of the built ledger: repeated calls yield the
    /// same rows.
    pub fn csv_line_iter(&self) -> (r: Vec<LineRecord>)
        requires
            self.wf(),
            self.spec_lines_joinable(),
        ensures
            r@.len() == self.items@.len(),
            forall|k: int|
                0 <= k < r@.len() ==> r@[k] == spec_output_line(
                    self.items@[k],
                    self.transactions@[(#[trigger] self.items@[k]).ordinal - 1],
                ),
    {
        let mut rows: Vec<LineRecord> = Vec::new();
        let n = self.items.len();
        for idx in 0..n
            invariant
                n == self.items@.len(),
                self.wf(),
                self.spec_lines_joinable(),
                rows@.len() == idx,
                forall|k: int|
                    0 <= k < idx ==> rows@[k] == spec_output_line(
                        self.items@[k],
                        self.transactions@[(#[trigger] self.items@[k]).ordinal - 1],
                    ),
        {
            let it = &self.items[idx];
            let tx = &self.transactions[(it.ordinal - 1) as usize];
            rows.push(it.output_line(tx));
        }
        rows
    }
}

} // verus!
