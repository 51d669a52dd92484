//! Price lookup capability.
//!
//! The ledger needs a unit price only when it creates a zero-cost lot
//! (interest, airdrop): the market price at the acquisition date stands in
//! as the lot's cost basis.  `missing_prices` lets a caller check
//! completeness up front and fail fast with a full report.

use vstd::prelude::*;
use crate::amount::Amount;
use crate::types::{AssetType, Date, Transaction};

verus! {

/// Capability that maps (asset, date) to a unit price.
pub trait PriceProvider {
    /// Validity of the provider's data; `get_price` may be called only on a
    /// valid provider.
    spec fn wf(&self) -> bool;

    /// The provider's price table, as a specification-level function.
    spec fn spec_get_price(&self, asset: Seq<char>, date: Date) -> Option<Amount>;

    /// Get the price of the given token at the given date; `None` when the
    /// price is not available.
    fn get_price(&self, token: &AssetType, date: Date) -> (r: Option<Amount>)
        requires
            self.wf(),
        ensures
            r == self.spec_get_price(token@, date),
            r matches Some(p) ==> p.wf(),
    ;

    /// Check if the price for the given token at the given date is available.
    fn contains_price(&self, token: &AssetType, date: Date) -> (r: bool)
        requires
            self.wf(),
        ensures
            r == (self.spec_get_price(token@, date) is Some),
    ;
}

/// One row of a price table: the unit price of `asset` on `date`.
#[derive(Debug)]
pub struct PriceEntry {
    /// Asset the price is for.
    pub asset: AssetType,
    /// Date the price was observed.
    pub date: Date,
    /// Unit price, in the designated fiat currency.
    pub price: Amount,
}

impl Clone for PriceEntry {
    fn clone(&self) -> (r: Self)
        ensures
            r == *self,
    {
        PriceEntry { asset: self.asset.clone(), date: self.date, price: self.price }
    }
}

/// First match in a price table, scanning front to back.
pub open spec fn table_lookup(entries: Seq<PriceEntry>, asset: Seq<char>, date: Date) -> Option<
    Amount,
>
    decreases entries.len(),
{
    if entries.len() == 0 {
        None
    } else if entries[0].asset@ == asset && entries[0].date == date {
        Some(entries[0].price)
    } else {
        table_lookup(entries.drop_first(), asset, date)
    }
}

/// An in-memory price table, queried by exact (asset, date) match.
#[derive(Debug)]
pub struct BasicPriceProvider {
    /// The table rows; earlier rows win on duplicate keys.
    pub entries: Vec<PriceEntry>,
}

impl BasicPriceProvider {
    /// Create a provider from a list of price entries.
    pub fn new(entries: Vec<PriceEntry>) -> (r: Self)
        ensures
            r.entries == entries,
    {
        BasicPriceProvider { entries }
    }
}

impl PriceProvider for BasicPriceProvider {
    open spec fn wf(&self) -> bool {
        forall|i: int| 0 <= i < self.entries@.len() ==> (#[trigger] self.entries@[i]).price.wf()
    }

    open spec fn spec_get_price(&self, asset: Seq<char>, date: Date) -> Option<Amount> {
        table_lookup(self.entries@, asset, date)
    }

    fn get_price(&self, token: &AssetType, date: Date) -> (r: Option<Amount>) {
        proof {
            assert(self.entries@.skip(0) =~= self.entries@);
        }
        let n = self.entries.len();
        for i in 0..n
            invariant
                n == self.entries@.len(),
                self.wf(),
                table_lookup(self.entries@, token@, date) == table_lookup(
                    self.entries@.skip(i as int),
                    token@,
                    date,
                ),
        {
            proof {
                assert(self.entries@.skip(i as int)[0] == self.entries@[i as int]);
                assert(self.entries@.skip(i as int).drop_first() =~= self.entries@.skip(
                    i as int + 1,
                ));
            }
            let e = &self.entries[i];
            if e.asset == *token && e.date == date {
                return Some(e.price);
            }
        }
        proof {
            assert(self.entries@.skip(n as int) =~= Seq::<PriceEntry>::empty());
        }
        None
    }

    fn contains_price(&self, token: &AssetType, date: Date) -> (r: bool) {
        let p = self.get_price(token, date);
        p.is_some()
    }
}

/// The zero-cost transactions of `txs` whose price is missing from `p`,
/// as (asset, date) pairs, in transaction order.
pub open spec fn spec_missing_prices<P: PriceProvider + ?Sized>(p: &P, txs: Seq<Transaction>) -> Seq<
    (AssetType, Date),
>
    decreases txs.len(),
{
    if txs.len() == 0 {
        Seq::empty()
    } else {
        let head = if (txs[0].tx_type is Interest || txs[0].tx_type is Airdrop)
            && p.spec_get_price(txs[0].output_type@, txs[0].date) is None {
            seq![(txs[0].output_type, txs[0].date)]
        } else {
            Seq::empty()
        };
        head + spec_missing_prices(p, txs.drop_first())
    }
}

/// Check whether any zero-cost transaction lacks a price.
///
/// Returns the (asset, date) pairs for which the provider has no price; an
/// empty list means the ledger can be built without a missing-price failure.
pub trait MissingPricesCheck: PriceProvider {
    /// List the missing (asset, date) price entries for `transactions`.
    fn missing_prices(&self, transactions: &Vec<Transaction>) -> (r: Vec<(AssetType, Date)>)
        requires
            self.wf(),
        ensures
            r@ == spec_missing_prices(self, transactions@),
    ;
}

impl MissingPricesCheck for BasicPriceProvider {
    fn missing_prices(&self, transactions: &Vec<Transaction>) -> (r: Vec<(AssetType, Date)>) {
        let mut out: Vec<(AssetType, Date)> = Vec::new();
        proof {
            assert(transactions@.skip(0) =~= transactions@);
            assert(out@ + spec_missing_prices(self, transactions@) =~= spec_missing_prices(
                self,
                transactions@,
            ));
        }
        let n = transactions.len();
        for i in 0..n
            invariant
                n == transactions@.len(),
                self.wf(),
                spec_missing_prices(self, transactions@) == out@ + spec_missing_prices(
                    self,
                    transactions@.skip(i as int),
                ),
        {
            proof {
                assert(transactions@.skip(i as int)[0] == transactions@[i as int]);
                assert(transactions@.skip(i as int).drop_first() =~= transactions@.skip(
                    i as int + 1,
                ));
            }
            let tx = &transactions[i];
            if tx.is_zero_cost() && !self.contains_price(&tx.output_type, tx.date) {
                out.push((tx.output_type.clone(), tx.date));
            }
        }
        proof {
            assert(transactions@.skip(n as int) =~= Seq::<Transaction>::empty());
            assert(out@ + spec_missing_prices(self, transactions@.skip(n as int)) =~= out@);
        }
        out
    }
}

} // verus!
