//! Yearly income/loss aggregation.
//!
//! Walks the inventory items in order and buckets realized income, expense
//! and profit by the calendar year of each item's transaction date.  An
//! item that disposed into fiat contributes `income = input * sale_price`
//! and `expense = input * cost_basis`; a first-generation zero-cost lot
//! (interest, airdrop) contributes `output * cost_basis` as pure income in
//! its acquisition year.  Buckets come out sorted ascending by year.

use vstd::prelude::*;
use crate::amount::{spec_add, spec_mul, spec_sub, Amount};
use crate::ledger::{zero_amt, InventoryItem, Ledger};

verus! {

/// Totals for one calendar year.
#[derive(Clone, Copy, Debug, PartialEq, Eq, Structural)]
pub struct YearSummary {
    /// The calendar year.
    pub year: i32,
    /// Income: fiat received from sales plus recognized zero-cost income.
    pub income: Amount,
    /// Expense: the acquisition value of what was sold.
    pub expense: Amount,
    /// Profit: `income - expense`.
    pub profit: Amount,
}

impl YearSummary {
    /// All amounts are well-formed rationals.
    pub open spec fn wf(self) -> bool {
        self.income.wf() && self.expense.wf() && self.profit.wf()
    }
}

/// An empty bucket for `year`.
pub open spec fn spec_empty_year(year: i32) -> YearSummary {
    YearSummary { year, income: zero_amt(), expense: zero_amt(), profit: zero_amt() }
}

/// First index at or after `i` whose bucket year is at least `y`; `len` if none.
pub open spec fn spec_find_slot(bs: Seq<YearSummary>, y: int, i: int) -> int
    decreases bs.len() - i,
    when 0 <= i <= bs.len()
{
    if i >= bs.len() {
        i
    } else if bs[i].year >= y {
        i
    } else {
        spec_find_slot(bs, y, i + 1)
    }
}

/// `spec_find_slot` stays within the bucket list's bounds.
pub proof fn lemma_find_slot_in_range(bs: Seq<YearSummary>, y: int, i: int)
    requires
        0 <= i <= bs.len(),
    ensures
        i <= spec_find_slot(bs, y, i) <= bs.len(),
    decreases bs.len() - i,
{
    if i >= bs.len() {
    } else if bs[i].year >= y {
    } else {
        lemma_find_slot_in_range(bs, y, i + 1);
    }
}

/// Add one item's contributions to the bucket list; `None` when an exact
/// intermediate amount is not representable.
pub open spec fn spec_report_step(bs: Seq<YearSummary>, it: InventoryItem) -> Option<
    Seq<YearSummary>,
> {
    let y = it.date.year;
    let slot = spec_find_slot(bs, y as int, 0);
    let bs1 = if slot < bs.len() && bs[slot].year == y {
        bs
    } else {
        bs.insert(slot, spec_empty_year(y))
    };
    let b = bs1[slot];
    let b2_opt = match it.sale_price {
        None => Some(b),
        Some(_) => match (it.spec_income(), it.spec_expense()) {
            (Some(inc), Some(exp)) => match (spec_add(b.income, inc), spec_add(b.expense, exp)) {
                (Some(ni), Some(ne)) => Some(YearSummary { income: ni, expense: ne, ..b }),
                _ => None,
            },
            _ => None,
        },
    };
    match b2_opt {
        None => None,
        Some(b2) => {
            let b3_opt = if it.is_zero_cost && it.parent_tx is None {
                match spec_mul(it.output_amount, it.cost_basis) {
                    None => None,
                    Some(zc) => match spec_add(b2.income, zc) {
                        None => None,
                        Some(ni) => Some(YearSummary { income: ni, ..b2 }),
                    },
                }
            } else {
                Some(b2)
            };
            match b3_opt {
                None => None,
                Some(b3) => match spec_sub(b3.income, b3.expense) {
                    None => None,
                    Some(p) => Some(bs1.update(slot, YearSummary { profit: p, ..b3 })),
                },
            }
        },
    }
}

/// The aggregation model: fold `spec_report_step` over the items.
pub open spec fn spec_yearly_report(items: Seq<InventoryItem>) -> Option<Seq<YearSummary>>
    decreases items.len(),
{
    if items.len() == 0 {
        Some(Seq::empty())
    } else {
        match spec_yearly_report(items.drop_last()) {
            None => None,
            Some(bs) => spec_report_step(bs, items.last()),
        }
    }
}

/// Once a prefix of the fold fails, the whole fold fails.
pub proof fn lemma_report_none_persists(items: Seq<InventoryItem>, k: int)
    requires
        0 <= k <= items.len(),
        spec_yearly_report(items.take(k)) is None,
    ensures
        spec_yearly_report(items) is None,
    decreases items.len() - k,
{
    if k == items.len() {
        assert(items.take(k) =~= items);
    } else {
        assert(items.take(k + 1).drop_last() =~= items.take(k));
        lemma_report_none_persists(items, k + 1);
    }
}

/// All buckets are well-formed.
pub open spec fn buckets_wf(bs: Seq<YearSummary>) -> bool {
    forall|k: int| 0 <= k < bs.len() ==> (#[trigger] bs[k]).wf()
}

/// First index whose bucket year is at least `y`, scanning the whole list.
fn find_slot(buckets: &Vec<YearSummary>, y: i32) -> (r: usize)
    ensures
        r == spec_find_slot(buckets@, y as int, 0),
        r <= buckets@.len(),
{
    let n = buckets.len();
    let mut i: usize = 0;
    while i < n
        invariant
            n == buckets@.len(),
            0 <= i <= n,
            spec_find_slot(buckets@, y as int, 0) == spec_find_slot(buckets@, y as int, i as int),
        decreases n - i,
    {
        if buckets[i].year >= y {
            return i;
        }
        i += 1;
    }
    i
}

impl Ledger {
    /// Yearly income/loss report: one bucket per calendar year that has
    /// inventory items, sorted ascending by year.
    ///
    /// Returns `None` when an exact total is not representable.  The result
    /// is a pure function of the built ledger: repeated calls yield the
    /// same report.
    pub fn yearly_income_loss_report(&self) -> (r: Option<Vec<YearSummary>>)
        requires
            self.wf(),
        ensures
            match r {
                Some(v) => spec_yearly_report(self.items@) == Some(v@),
                None => spec_yearly_report(self.items@) is None,
            },
    {
        let mut buckets: Vec<YearSummary> = Vec::new();
        proof {
            assert(self.items@.take(0) =~= Seq::<InventoryItem>::empty());
        }
        let n = self.items.len();
        for idx in 0..n
            invariant
                n == self.items@.len(),
                self.wf(),
                buckets_wf(buckets@),
                spec_yearly_report(self.items@.take(idx as int)) == Some(buckets@),
        {
            let ghost pre_buckets = buckets@;
            let it = &self.items[idx];
            let y = it.date.year;
            let slot = find_slot(&buckets, y);
            if !(slot < buckets.len() && buckets[slot].year == y) {
                buckets.insert(slot, YearSummary {
                    year: y,
                    income: Amount::zero(),
                    expense: Amount::zero(),
                    profit: Amount::zero(),
                });
            }
            let ghost bs1 = buckets@;
            let mut b = buckets[slot];
            match it.sale_price {
                None => {},
                Some(_) => {
                    match (it.income(), it.expense()) {
                        (Some(inc), Some(exp)) => {
                            match (b.income.checked_add(&inc), b.expense.checked_add(&exp)) {
                                (Some(ni), Some(ne)) => {
                                    b = YearSummary { income: ni, expense: ne, ..b };
                                },
                                _ => {
                                    proof {
                                        assert(self.items@.take(idx as int + 1).drop_last()
                                            =~= self.items@.take(idx as int));
                                        assert(self.items@.take(idx as int + 1).last()
                                            == self.items@[idx as int]);
                                        lemma_report_none_persists(self.items@, idx as int + 1);
                                    }
                                    return None;
                                },
                            }
                        },
                        _ => {
                            proof {
                                assert(self.items@.take(idx as int + 1).drop_last()
                                    =~= self.items@.take(idx as int));
                                assert(self.items@.take(idx as int + 1).last()
                                    == self.items@[idx as int]);
                                lemma_report_none_persists(self.items@, idx as int + 1);
                            }
                            return None;
                        },
                    }
                },
            }
            if it.is_zero_cost && it.parent_tx.is_none() {
                match it.output_amount.checked_mul(&it.cost_basis) {
                    None => {
                        proof {
                            lemma_report_none_persists(self.items@, idx as int + 1);
                        }
                        return None;
                    },
                    Some(zc) => match b.income.checked_add(&zc) {
                        None => {
                            proof {
                                assert(self.items@.take(idx as int + 1).drop_last()
                                    =~= self.items@.take(idx as int));
                                assert(self.items@.take(idx as int + 1).last()
                                    == self.items@[idx as int]);
                                lemma_report_none_persists(self.items@, idx as int + 1);
                            }
                            return None;
                        },
                        Some(ni) => {
                            b = YearSummary { income: ni, ..b };
                        },
                    },
                }
            }
            match b.income.checked_sub(&b.expense) {
                None => {
                    proof {
                        assert(self.items@.take(idx as int + 1).drop_last() =~= self.items@.take(
                            idx as int,
                        ));
                        assert(self.items@.take(idx as int + 1).last()
                            == self.items@[idx as int]);
                        lemma_report_none_persists(self.items@, idx as int + 1);
                    }
                    return None;
                },
                Some(p) => {
                    b = YearSummary { profit: p, ..b };
                },
            }
            buckets[slot] = b;
            proof {
                assert(self.items@.take(idx as int + 1).drop_last() =~= self.items@.take(
                    idx as int,
                ));
                assert(self.items@.take(idx as int + 1).last() == self.items@[idx as int]);
                assert(buckets@ =~= bs1.update(slot as int, b));
                assert(spec_report_step(pre_buckets, self.items@[idx as int]) == Some(buckets@));
            }
        }
        proof {
            assert(self.items@.take(n as int) =~= self.items@);
        }
        Some(buckets)
    }
}

} // verus!
